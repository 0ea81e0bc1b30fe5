//! Parsing JSON text into wire values.
//!
//! The grammar is the one the encoder writes, plus the usual liberties a
//! peer may take: whitespace between tokens, both upper- and lower-case
//! hexadecimal digits in escapes, and the full set of single-character
//! escapes.  Numbers are decimal integers without fraction or exponent,
//! with no leading zeros, and must fit the exchangeable range
//! (`i64::MIN ..= u64::MAX`); strings may not contain raw control
//! characters; a `\u` escape must denote a Unicode scalar value (surrogate
//! halves are rejected).
//!
//! The grammar is stated as recursive specification functions consuming a
//! character sequence from the front; the executable parser is proved to
//! return exactly what they say.

use vstd::prelude::*;
use crate::value::{JVal, JsonValue};

verus! {

/// Whitespace that may separate tokens.
pub open spec fn is_ws(c: char) -> bool {
    c == ' ' || c == '\t' || c == '\n' || c == '\r'
}

/// A decimal digit.
pub open spec fn is_digit(c: char) -> bool {
    0x30 <= (c as u32) <= 0x39
}

/// The value of a decimal digit character.
pub open spec fn digit_val(c: char) -> int {
    (c as u32) - 0x30
}

/// The value of a hexadecimal digit character, or -1 if it is none.
pub open spec fn hex_val(c: char) -> int {
    if is_digit(c) {
        digit_val(c)
    } else if 0x61 <= (c as u32) <= 0x66 {
        (c as u32) - 0x61 + 10
    } else if 0x41 <= (c as u32) <= 0x46 {
        (c as u32) - 0x41 + 10
    } else {
        -1
    }
}

/// The input with leading whitespace removed.
pub open spec fn sp_ws(s: Seq<char>) -> Seq<char>
    decreases s.len(),
{
    if s.len() > 0 && is_ws(s[0]) {
        sp_ws(s.subrange(1, s.len() as int))
    } else {
        s
    }
}

/// The longest digit prefix of the input, and what follows it.
pub open spec fn take_digits(s: Seq<char>) -> (Seq<char>, Seq<char>)
    decreases s.len(),
{
    if s.len() > 0 && is_digit(s[0]) {
        let (d, r) = take_digits(s.subrange(1, s.len() as int));
        (seq![s[0]] + d, r)
    } else {
        (Seq::empty(), s)
    }
}

/// The number a digit sequence denotes.
pub open spec fn digits_val(ds: Seq<char>) -> int
    decreases ds.len(),
{
    if ds.len() == 0 {
        0
    } else {
        digits_val(ds.subrange(0, ds.len() - 1)) * 10 + digit_val(ds[ds.len() - 1])
    }
}

/// A number token: optional minus sign, then digits with no leading zero,
/// at most twenty digits, within the exchangeable integer range.
pub open spec fn sp_number(s: Seq<char>) -> Option<(JVal, Seq<char>)> {
    let neg = s.len() > 0 && s[0] == '-';
    let u = if neg {
        s.subrange(1, s.len() as int)
    } else {
        s
    };
    let (ds, rest) = take_digits(u);
    if ds.len() == 0 {
        None
    } else if ds.len() > 1 && ds[0] == '0' {
        None
    } else if ds.len() > 20 {
        None
    } else {
        let val = digits_val(ds);
        if neg {
            if val <= 0x8000_0000_0000_0000 {
                Some((JVal::Int(-val), rest))
            } else {
                None
            }
        } else {
            if val <= u64::MAX as int {
                Some((JVal::Int(val), rest))
            } else {
                None
            }
        }
    }
}

/// What a single-character escape denotes, if anything.
pub open spec fn esc_map(c: char) -> Option<char> {
    if c == '"' {
        Some('"')
    } else if c == '\\' {
        Some('\\')
    } else if c == '/' {
        Some('/')
    } else if c == 'b' {
        Some('\u{8}')
    } else if c == 'f' {
        Some('\u{c}')
    } else if c == 'n' {
        Some('\n')
    } else if c == 'r' {
        Some('\r')
    } else if c == 't' {
        Some('\t')
    } else {
        None
    }
}

/// The body of a string, after the opening quote: the characters it
/// denotes and what follows the closing quote.
pub open spec fn sp_str_body(s: Seq<char>) -> Option<(Seq<char>, Seq<char>)>
    decreases s.len(),
{
    if s.len() == 0 {
        None
    } else if s[0] == '"' {
        Some((Seq::empty(), s.subrange(1, s.len() as int)))
    } else if s[0] == '\\' {
        if s.len() < 2 {
            None
        } else if s[1] == 'u' {
            if s.len() < 6 {
                None
            } else {
                let h0 = hex_val(s[2]);
                let h1 = hex_val(s[3]);
                let h2 = hex_val(s[4]);
                let h3 = hex_val(s[5]);
                if h0 < 0 || h1 < 0 || h2 < 0 || h3 < 0 {
                    None
                } else {
                    let code = ((h0 * 4096 + h1 * 256 + h2 * 16 + h3) as u32);
                    if 0xD800 <= code <= 0xDFFF {
                        None
                    } else {
                        match sp_str_body(s.subrange(6, s.len() as int)) {
                            Some((cs, r)) => Some((seq![code as char] + cs, r)),
                            None => None,
                        }
                    }
                }
            }
        } else {
            match esc_map(s[1]) {
                Some(c) => match sp_str_body(s.subrange(2, s.len() as int)) {
                    Some((cs, r)) => Some((seq![c] + cs, r)),
                    None => None,
                },
                None => None,
            }
        }
    } else if (s[0] as u32) < 0x20 {
        None
    } else {
        match sp_str_body(s.subrange(1, s.len() as int)) {
            Some((cs, r)) => Some((seq![s[0]] + cs, r)),
            None => None,
        }
    }
}

/// A value, starting at the first character of its first token.
pub open spec fn sp_value(s: Seq<char>) -> Option<(JVal, Seq<char>)>
    decreases s.len(), 0int,
{
    if s.len() == 0 {
        None
    } else if s[0] == 'n' {
        if s.len() >= 4 && s[1] == 'u' && s[2] == 'l' && s[3] == 'l' {
            Some((JVal::Null, s.subrange(4, s.len() as int)))
        } else {
            None
        }
    } else if s[0] == 't' {
        if s.len() >= 4 && s[1] == 'r' && s[2] == 'u' && s[3] == 'e' {
            Some((JVal::Bool(true), s.subrange(4, s.len() as int)))
        } else {
            None
        }
    } else if s[0] == 'f' {
        if s.len() >= 5 && s[1] == 'a' && s[2] == 'l' && s[3] == 's' && s[4] == 'e' {
            Some((JVal::Bool(false), s.subrange(5, s.len() as int)))
        } else {
            None
        }
    } else if s[0] == '"' {
        match sp_str_body(s.subrange(1, s.len() as int)) {
            Some((cs, r)) => Some((JVal::Str(cs), r)),
            None => None,
        }
    } else if s[0] == '[' {
        let t = sp_ws(s.subrange(1, s.len() as int));
        if t.len() > 0 && t[0] == ']' {
            Some((JVal::Arr(Seq::empty()), t.subrange(1, t.len() as int)))
        } else if t.len() < s.len() {
            match sp_arr_items(t) {
                Some((vs, r)) => Some((JVal::Arr(vs), r)),
                None => None,
            }
        } else {
            None
        }
    } else if s[0] == '{' {
        let t = sp_ws(s.subrange(1, s.len() as int));
        if t.len() > 0 && t[0] == '}' {
            Some((JVal::Obj(Seq::empty()), t.subrange(1, t.len() as int)))
        } else if t.len() < s.len() {
            match sp_obj_items(t) {
                Some((fs, r)) => Some((JVal::Obj(fs), r)),
                None => None,
            }
        } else {
            None
        }
    } else if s[0] == '-' || is_digit(s[0]) {
        sp_number(s)
    } else {
        None
    }
}

/// One or more comma-separated array items, ending at the closing bracket.
pub open spec fn sp_arr_items(s: Seq<char>) -> Option<(Seq<JVal>, Seq<char>)>
    decreases s.len(), 1int,
{
    match sp_value(s) {
        None => None,
        Some((v, r0)) => {
            let r1 = sp_ws(r0);
            if r1.len() > 0 && r1[0] == ',' {
                let r2 = sp_ws(r1.subrange(1, r1.len() as int));
                if r2.len() < s.len() {
                    match sp_arr_items(r2) {
                        Some((vs, r)) => Some((seq![v] + vs, r)),
                        None => None,
                    }
                } else {
                    None
                }
            } else if r1.len() > 0 && r1[0] == ']' {
                Some((seq![v], r1.subrange(1, r1.len() as int)))
            } else {
                None
            }
        },
    }
}

/// One or more comma-separated `"key":value` fields, ending at the closing
/// brace.
pub open spec fn sp_obj_items(s: Seq<char>) -> Option<(Seq<(Seq<char>, JVal)>, Seq<char>)>
    decreases s.len(), 1int,
{
    if s.len() == 0 || s[0] != '"' {
        None
    } else {
        match sp_str_body(s.subrange(1, s.len() as int)) {
            None => None,
            Some((k, r0)) => {
                let r1 = sp_ws(r0);
                if r1.len() > 0 && r1[0] == ':' {
                    let r2 = sp_ws(r1.subrange(1, r1.len() as int));
                    if r2.len() < s.len() {
                        match sp_value(r2) {
                            None => None,
                            Some((v, r3)) => {
                                let r4 = sp_ws(r3);
                                if r4.len() > 0 && r4[0] == ',' {
                                    let r5 = sp_ws(r4.subrange(1, r4.len() as int));
                                    if r5.len() < s.len() {
                                        match sp_obj_items(r5) {
                                            Some((fs, r)) => Some((seq![(k, v)] + fs, r)),
                                            None => None,
                                        }
                                    } else {
                                        None
                                    }
                                } else if r4.len() > 0 && r4[0] == '}' {
                                    Some((seq![(k, v)], r4.subrange(1, r4.len() as int)))
                                } else {
                                    None
                                }
                            },
                        }
                    } else {
                        None
                    }
                } else {
                    None
                }
            },
        }
    }
}

/// A complete text: optional whitespace, one value, optional whitespace,
/// nothing further.
pub open spec fn sp_parse(s: Seq<char>) -> Option<JVal> {
    match sp_value(sp_ws(s)) {
        Some((v, r)) => if sp_ws(r).len() == 0 {
            Some(v)
        } else {
            None
        },
        None => None,
    }
}

/// The input from character `i` on.
pub open spec fn rest_of(s: Seq<char>, i: int) -> Seq<char> {
    s.subrange(i, s.len() as int)
}

/// Relies on `char::from_u32` of std: it returns the character with the
/// given code exactly when the code is a Unicode scalar value (not a
/// surrogate half, not beyond the last code point).
pub assume_specification[ char::from_u32 ](v: u32) -> (c: Option<char>)
    ensures
        c == (if v < 0xD800 || (0xE000 <= v && v <= 0x10FFFF) {
            Some(v as char)
        } else {
            None::<char>
        }),
;

/// Relies on `String`'s `FromIterator` impl of std: collecting characters
/// yields the string of exactly those characters in order.
#[verifier::external_body]
fn chars_to_string(v: &Vec<char>) -> (s: String)
    ensures
        s@ == v@,
{
    v.iter().collect()
}

/// The characters of a string slice, in order.
pub fn str_to_chars(s: &str) -> (v: Vec<char>)
    ensures
        v@ == s@,
{
    let n = s.unicode_len();
    let mut v: Vec<char> = Vec::new();
    let mut i: usize = 0;
    while i < n
        invariant
            n == s@.len(),
            i <= n,
            v@ == s@.subrange(0, i as int),
        decreases n - i,
    {
        v.push(s.get_char(i));
        i = i + 1;
        proof {
            assert(v@ =~= s@.subrange(0, i as int));
        }
    }
    proof {
        assert(s@.subrange(0, n as int) =~= s@);
    }
    v
}

/// Whitespace test.
fn ws_char(c: char) -> (r: bool)
    ensures
        r == is_ws(c),
{
    c == ' ' || c == '\t' || c == '\n' || c == '\r'
}

/// Decimal digit test.
fn digit_char_test(c: char) -> (r: bool)
    ensures
        r == is_digit(c),
{
    let u = c as u32;
    0x30 <= u && u <= 0x39
}

/// The value of a hexadecimal digit, or -1.
fn hex_val_of(c: char) -> (r: i32)
    ensures
        r as int == hex_val(c),
{
    let u = c as u32;
    if 0x30 <= u && u <= 0x39 {
        (u - 0x30) as i32
    } else if 0x61 <= u && u <= 0x66 {
        (u - 0x61 + 10) as i32
    } else if 0x41 <= u && u <= 0x46 {
        (u - 0x41 + 10) as i32
    } else {
        -1
    }
}

/// The first position at or after `i` that does not hold whitespace.
fn skip_ws(s: &Vec<char>, i: usize) -> (j: usize)
    requires
        i <= s@.len(),
    ensures
        i <= j <= s@.len(),
        rest_of(s@, j as int) == sp_ws(rest_of(s@, i as int)),
    decreases s@.len() - i,
{
    if i < s.len() && ws_char(s[i]) {
        proof {
            assert(rest_of(s@, i as int)[0] == s@[i as int]);
            assert(rest_of(s@, i as int).subrange(1, rest_of(s@, i as int).len() as int) =~= rest_of(
                s@,
                i as int + 1,
            ));
        }
        skip_ws(s, i + 1)
    } else {
        proof {
            if rest_of(s@, i as int).len() > 0 {
                assert(rest_of(s@, i as int)[0] == s@[i as int]);
            }
        }
        i
    }
}

/// Powers of ten.
pub open spec fn pow10(n: nat) -> int
    decreases n,
{
    if n == 0 {
        1
    } else {
        10 * pow10((n - 1) as nat)
    }
}

/// A digit sequence denotes a number below ten to its length.
proof fn lemma_digits_val_bound(ds: Seq<char>)
    requires
        forall|k: int| 0 <= k < ds.len() ==> is_digit(#[trigger] ds[k]),
    ensures
        0 <= digits_val(ds) < pow10(ds.len() as nat),
    decreases ds.len(),
{
    if ds.len() > 0 {
        let pre = ds.subrange(0, ds.len() - 1);
        lemma_digits_val_bound(pre);
        assert(is_digit(ds[ds.len() - 1]));
    }
}

/// Scanning digits from `i` to the first non-digit at `e` is what
/// `take_digits` returns.
proof fn lemma_take_digits_range(s: Seq<char>, i: int, e: int)
    requires
        0 <= i <= e <= s.len(),
        forall|k: int| i <= k < e ==> is_digit(#[trigger] s[k]),
        e == s.len() || !is_digit(s[e]),
    ensures
        take_digits(rest_of(s, i)) == (s.subrange(i, e), rest_of(s, e)),
    decreases e - i,
{
    let t = rest_of(s, i);
    if i == e {
        if t.len() > 0 {
            assert(t[0] == s[e]);
        }
        assert(s.subrange(i, e) =~= Seq::<char>::empty());
    } else {
        assert(t[0] == s[i]);
        lemma_take_digits_range(s, i + 1, e);
        assert(t.subrange(1, t.len() as int) =~= rest_of(s, i + 1));
        assert(seq![s[i]] + s.subrange(i + 1, e) =~= s.subrange(i, e));
    }
}

/// What a single-character escape denotes.
fn esc_of(c: char) -> (r: Option<char>)
    ensures
        r == esc_map(c),
{
    if c == '"' {
        Some('"')
    } else if c == '\\' {
        Some('\\')
    } else if c == '/' {
        Some('/')
    } else if c == 'b' {
        Some('\u{8}')
    } else if c == 'f' {
        Some('\u{c}')
    } else if c == 'n' {
        Some('\n')
    } else if c == 'r' {
        Some('\r')
    } else if c == 't' {
        Some('\t')
    } else {
        None
    }
}

/// The body of a string from `i` (just after the opening quote): the
/// characters it denotes and the position after the closing quote.
#[verifier::rlimit(60)]
fn p_str_body(s: &Vec<char>, i: usize) -> (r: Option<(Vec<char>, usize)>)
    requires
        i <= s@.len(),
    ensures
        match r {
            None => sp_str_body(rest_of(s@, i as int)) is None,
            Some((cs, j)) => i < j <= s@.len() && sp_str_body(rest_of(s@, i as int)) == Some(
                (cs@, rest_of(s@, j as int)),
            ),
        },
    decreases s@.len() - i,
{
    let ghost t = rest_of(s@, i as int);
    if i >= s.len() {
        None
    } else {
        let c = s[i];
        proof {
            assert(t[0] == s@[i as int]);
        }
        if c == '"' {
            proof {
                assert(t.subrange(1, t.len() as int) =~= rest_of(s@, i as int + 1));
            }
            Some((Vec::new(), i + 1))
        } else if c == '\\' {
            if i + 1 >= s.len() {
                None
            } else {
                let e = s[i + 1];
                proof {
                    assert(t[1] == s@[i as int + 1]);
                }
                if e == 'u' {
                    if s.len() - i < 6 {
                        None
                    } else {
                        proof {
                            assert(t[2] == s@[i as int + 2]);
                            assert(t[3] == s@[i as int + 3]);
                            assert(t[4] == s@[i as int + 4]);
                            assert(t[5] == s@[i as int + 5]);
                        }
                        let h0 = hex_val_of(s[i + 2]);
                        let h1 = hex_val_of(s[i + 3]);
                        let h2 = hex_val_of(s[i + 4]);
                        let h3 = hex_val_of(s[i + 5]);
                        if h0 < 0 || h1 < 0 || h2 < 0 || h3 < 0 {
                            None
                        } else {
                            let code: u32 = (h0 as u32) * 4096 + (h1 as u32) * 256 + (h2 as u32)
                                * 16 + (h3 as u32);
                            if 0xD800 <= code && code <= 0xDFFF {
                                None
                            } else {
                                let ch = char::from_u32(code);
                                match p_str_body(s, i + 6) {
                                    None => {
                                        proof {
                                            assert(t.subrange(6, t.len() as int) =~= rest_of(
                                                s@,
                                                i as int + 6,
                                            ));
                                        }
                                        None
                                    },
                                    Some((tail_cs, j)) => {
                                        let mut out = tail_cs;
                                        out.insert(0, ch.unwrap());
                                        proof {
                                            assert(t.subrange(6, t.len() as int) =~= rest_of(
                                                s@,
                                                i as int + 6,
                                            ));
                                            assert(out@ =~= seq![(code as char)] + out@.subrange(
                                                1,
                                                out@.len() as int,
                                            ));
                                        }
                                        Some((out, j))
                                    },
                                }
                            }
                        }
                    }
                } else {
                    match esc_of(e) {
                        None => None,
                        Some(ch) => {
                            match p_str_body(s, i + 2) {
                                None => {
                                    proof {
                                        assert(t.subrange(2, t.len() as int) =~= rest_of(
                                            s@,
                                            i as int + 2,
                                        ));
                                    }
                                    None
                                },
                                Some((tail_cs, j)) => {
                                    let mut out = tail_cs;
                                    out.insert(0, ch);
                                    proof {
                                        assert(t.subrange(2, t.len() as int) =~= rest_of(
                                            s@,
                                            i as int + 2,
                                        ));
                                        assert(out@ =~= seq![ch] + out@.subrange(
                                            1,
                                            out@.len() as int,
                                        ));
                                    }
                                    Some((out, j))
                                },
                            }
                        },
                    }
                }
            }
        } else if (c as u32) < 0x20 {
            None
        } else {
            match p_str_body(s, i + 1) {
                None => {
                    proof {
                        assert(t.subrange(1, t.len() as int) =~= rest_of(s@, i as int + 1));
                    }
                    None
                },
                Some((tail_cs, j)) => {
                    let mut out = tail_cs;
                    out.insert(0, c);
                    proof {
                        assert(t.subrange(1, t.len() as int) =~= rest_of(s@, i as int + 1));
                        assert(out@ =~= seq![c] + out@.subrange(1, out@.len() as int));
                    }
                    Some((out, j))
                },
            }
        }
    }
}

/// A number starting at `i`.
fn p_number(s: &Vec<char>, i: usize) -> (r: Option<(JsonValue, usize)>)
    requires
        i <= s@.len(),
    ensures
        match r {
            None => sp_number(rest_of(s@, i as int)) is None,
            Some((v, j)) => i < j <= s@.len() && sp_number(rest_of(s@, i as int)) == Some(
                (crate::value::jval_model(v), rest_of(s@, j as int)),
            ),
        },
{
    let ghost t = rest_of(s@, i as int);
    let n = s.len();
    let neg = i < n && s[i] == '-';
    let u: usize = if neg {
        i + 1
    } else {
        i
    };
    proof {
        if t.len() > 0 {
            assert(t[0] == s@[i as int]);
        }
        if neg {
            assert(t.subrange(1, t.len() as int) =~= rest_of(s@, u as int));
        }
    }
    let mut e: usize = u;
    while e < n && digit_char_test(s[e])
        invariant
            u <= e <= n,
            n == s@.len(),
            forall|k: int| u <= k < e ==> is_digit(#[trigger] s@[k]),
        decreases n - e,
    {
        e = e + 1;
    }
    proof {
        lemma_take_digits_range(s@, u as int, e as int);
    }
    let ghost ds = s@.subrange(u as int, e as int);
    if e == u {
        proof {
            assert(ds.len() == 0);
        }
        None
    } else if e - u > 1 && s[u] == '0' {
        proof {
            assert(ds[0] == s@[u as int]);
        }
        None
    } else if e - u > 20 {
        None
    } else {
        proof {
            assert(ds[0] == s@[u as int]);
        }
        let mut acc: u128 = 0;
        let mut k: usize = u;
        while k < e
            invariant
                u <= k <= e <= n,
                n == s@.len(),
                e - u <= 20,
                forall|q: int| u <= q < e ==> is_digit(#[trigger] s@[q]),
                acc == digits_val(s@.subrange(u as int, k as int)),
            decreases e - k,
        {
            let ghost pre = s@.subrange(u as int, k as int);
            proof {
                lemma_digits_val_bound(pre);
                reveal_with_fuel(pow10, 21);
                lemma_pow10_mono((k - u) as nat, 19);
                assert(is_digit(s@[k as int]));
            }
            let d: u32 = (s[k] as u32) - 0x30;
            acc = acc * 10 + (d as u128);
            k = k + 1;
            proof {
                let cur = s@.subrange(u as int, k as int);
                assert(cur.subrange(0, cur.len() - 1) =~= pre);
                assert(cur[cur.len() - 1] == s@[k as int - 1]);
            }
        }
        proof {
            assert(acc == digits_val(ds));
        }
        if neg {
            if acc <= 0x8000_0000_0000_0000u128 {
                Some((JsonValue::Int(-(acc as i128)), e))
            } else {
                None
            }
        } else {
            if acc <= 0xFFFF_FFFF_FFFF_FFFFu128 {
                Some((JsonValue::Int(acc as i128), e))
            } else {
                None
            }
        }
    }
}

/// A value starting at `i` (first token character, no leading whitespace).
fn p_value(s: &Vec<char>, i: usize) -> (r: Option<(JsonValue, usize)>)
    requires
        i <= s@.len(),
    ensures
        match r {
            None => sp_value(rest_of(s@, i as int)) is None,
            Some((v, j)) => i < j <= s@.len() && sp_value(rest_of(s@, i as int)) == Some(
                (crate::value::jval_model(v), rest_of(s@, j as int)),
            ),
        },
    decreases s@.len() - i, 0int,
{
    let ghost t = rest_of(s@, i as int);
    let n = s.len();
    if i >= n {
        None
    } else {
        let c = s[i];
        proof {
            assert(t[0] == s@[i as int]);
            if t.len() > 1 {
                assert(t[1] == s@[i as int + 1]);
            }
            if t.len() > 2 {
                assert(t[2] == s@[i as int + 2]);
            }
            if t.len() > 3 {
                assert(t[3] == s@[i as int + 3]);
            }
            if t.len() > 4 {
                assert(t[4] == s@[i as int + 4]);
            }
        }
        if c == 'n' {
            if n - i >= 4 && s[i + 1] == 'u' && s[i + 2] == 'l' && s[i + 3] == 'l' {
                proof {
                    assert(t.subrange(4, t.len() as int) =~= rest_of(s@, i as int + 4));
                }
                Some((JsonValue::Null, i + 4))
            } else {
                None
            }
        } else if c == 't' {
            if n - i >= 4 && s[i + 1] == 'r' && s[i + 2] == 'u' && s[i + 3] == 'e' {
                proof {
                    assert(t.subrange(4, t.len() as int) =~= rest_of(s@, i as int + 4));
                }
                Some((JsonValue::Bool(true), i + 4))
            } else {
                None
            }
        } else if c == 'f' {
            if n - i >= 5 && s[i + 1] == 'a' && s[i + 2] == 'l' && s[i + 3] == 's' && s[i + 4]
                == 'e' {
                proof {
                    assert(t.subrange(5, t.len() as int) =~= rest_of(s@, i as int + 5));
                }
                Some((JsonValue::Bool(false), i + 5))
            } else {
                None
            }
        } else if c == '"' {
            proof {
                assert(t.subrange(1, t.len() as int) =~= rest_of(s@, i as int + 1));
            }
            match p_str_body(s, i + 1) {
                None => None,
                Some((cs, j)) => {
                    let st = chars_to_string(&cs);
                    Some((JsonValue::Str(st), j))
                },
            }
        } else if c == '[' {
            proof {
                assert(t.subrange(1, t.len() as int) =~= rest_of(s@, i as int + 1));
            }
            let j1 = skip_ws(s, i + 1);
            let ghost t1 = rest_of(s@, j1 as int);
            if j1 < n && s[j1] == ']' {
                proof {
                    assert(t1[0] == s@[j1 as int]);
                    assert(t1.subrange(1, t1.len() as int) =~= rest_of(s@, j1 as int + 1));
                    assert(crate::value::arr_model(Seq::<JsonValue>::empty())
                        =~= Seq::<JVal>::empty());
                }
                let out: Vec<JsonValue> = Vec::new();
                proof {
                    assert(out@ =~= Seq::<JsonValue>::empty());
                }
                Some((JsonValue::Arr(out), j1 + 1))
            } else {
                proof {
                    if t1.len() > 0 {
                        assert(t1[0] == s@[j1 as int]);
                    }
                }
                match p_arr_items(s, j1) {
                    None => None,
                    Some((vs, j)) => Some((JsonValue::Arr(vs), j)),
                }
            }
        } else if c == '{' {
            proof {
                assert(t.subrange(1, t.len() as int) =~= rest_of(s@, i as int + 1));
            }
            let j1 = skip_ws(s, i + 1);
            let ghost t1 = rest_of(s@, j1 as int);
            if j1 < n && s[j1] == '}' {
                proof {
                    assert(t1[0] == s@[j1 as int]);
                    assert(t1.subrange(1, t1.len() as int) =~= rest_of(s@, j1 as int + 1));
                    assert(crate::value::obj_model(Seq::<(String, JsonValue)>::empty())
                        =~= Seq::<(Seq<char>, JVal)>::empty());
                }
                let out: Vec<(String, JsonValue)> = Vec::new();
                proof {
                    assert(out@ =~= Seq::<(String, JsonValue)>::empty());
                }
                Some((JsonValue::Obj(out), j1 + 1))
            } else {
                proof {
                    if t1.len() > 0 {
                        assert(t1[0] == s@[j1 as int]);
                    }
                }
                match p_obj_items(s, j1) {
                    None => None,
                    Some((fs, j)) => Some((JsonValue::Obj(fs), j)),
                }
            }
        } else if c == '-' || digit_char_test(c) {
            p_number(s, i)
        } else {
            None
        }
    }
}

/// One or more comma-separated array items from `i`, ending at the closing
/// bracket.
fn p_arr_items(s: &Vec<char>, i: usize) -> (r: Option<(Vec<JsonValue>, usize)>)
    requires
        i <= s@.len(),
    ensures
        match r {
            None => sp_arr_items(rest_of(s@, i as int)) is None,
            Some((vs, j)) => i < j <= s@.len() && sp_arr_items(rest_of(s@, i as int)) == Some(
                (crate::value::arr_model(vs@), rest_of(s@, j as int)),
            ),
        },
    decreases s@.len() - i, 1int,
{
    match p_value(s, i) {
        None => None,
        Some((v, j0)) => {
            let j1 = skip_ws(s, j0);
            let ghost r1 = rest_of(s@, j1 as int);
            if j1 < s.len() && s[j1] == ',' {
                proof {
                    assert(r1[0] == s@[j1 as int]);
                    assert(r1.subrange(1, r1.len() as int) =~= rest_of(s@, j1 as int + 1));
                }
                let j2 = skip_ws(s, j1 + 1);
                match p_arr_items(s, j2) {
                    None => None,
                    Some((vs, j)) => {
                        let mut out = vs;
                        out.insert(0, v);
                        proof {
                            assert(out@.subrange(1, out@.len() as int) =~= out@.skip(1));
                            assert(out@.skip(1) =~= vs@);
                            assert(crate::value::arr_model(out@) =~= seq![
                                crate::value::jval_model(v),
                            ] + crate::value::arr_model(vs@));
                        }
                        Some((out, j))
                    },
                }
            } else if j1 < s.len() && s[j1] == ']' {
                proof {
                    assert(r1[0] == s@[j1 as int]);
                    assert(r1.subrange(1, r1.len() as int) =~= rest_of(s@, j1 as int + 1));
                }
                let mut out: Vec<JsonValue> = Vec::new();
                out.push(v);
                proof {
                    reveal_with_fuel(crate::value::arr_model, 2);
                    assert(out@.subrange(1, out@.len() as int) =~= Seq::<JsonValue>::empty());
                    assert(crate::value::arr_model(out@) =~= seq![crate::value::jval_model(v)]);
                }
                Some((out, j1 + 1))
            } else {
                proof {
                    if r1.len() > 0 {
                        assert(r1[0] == s@[j1 as int]);
                    }
                }
                None
            }
        },
    }
}

/// One or more comma-separated `"key":value` fields from `i`, ending at
/// the closing brace.
fn p_obj_items(s: &Vec<char>, i: usize) -> (r: Option<(Vec<(String, JsonValue)>, usize)>)
    requires
        i <= s@.len(),
    ensures
        match r {
            None => sp_obj_items(rest_of(s@, i as int)) is None,
            Some((fs, j)) => i < j <= s@.len() && sp_obj_items(rest_of(s@, i as int)) == Some(
                (crate::value::obj_model(fs@), rest_of(s@, j as int)),
            ),
        },
    decreases s@.len() - i, 1int,
{
    let ghost t = rest_of(s@, i as int);
    if i >= s.len() {
        None
    } else if s[i] != '"' {
        proof {
            assert(t[0] == s@[i as int]);
        }
        None
    } else {
        proof {
            assert(t[0] == s@[i as int]);
            assert(t.subrange(1, t.len() as int) =~= rest_of(s@, i as int + 1));
        }
        match p_str_body(s, i + 1) {
            None => None,
            Some((kcs, jk)) => {
                let key = chars_to_string(&kcs);
                let j1 = skip_ws(s, jk);
                let ghost r1 = rest_of(s@, j1 as int);
                if j1 < s.len() && s[j1] == ':' {
                    proof {
                        assert(r1[0] == s@[j1 as int]);
                        assert(r1.subrange(1, r1.len() as int) =~= rest_of(s@, j1 as int + 1));
                    }
                    let j2 = skip_ws(s, j1 + 1);
                    match p_value(s, j2) {
                        None => None,
                        Some((v, j3)) => {
                            let j4 = skip_ws(s, j3);
                            let ghost r4 = rest_of(s@, j4 as int);
                            if j4 < s.len() && s[j4] == ',' {
                                proof {
                                    assert(r4[0] == s@[j4 as int]);
                                    assert(r4.subrange(1, r4.len() as int) =~= rest_of(
                                        s@,
                                        j4 as int + 1,
                                    ));
                                }
                                let j5 = skip_ws(s, j4 + 1);
                                match p_obj_items(s, j5) {
                                    None => None,
                                    Some((fs, j)) => {
                                        let mut out = fs;
                                        out.insert(0, (key, v));
                                        proof {
                                            assert(out@.subrange(1, out@.len() as int) =~= fs@);
                                            assert(crate::value::obj_model(out@) =~= seq![
                                                (kcs@, crate::value::jval_model(v)),
                                            ] + crate::value::obj_model(fs@));
                                        }
                                        Some((out, j))
                                    },
                                }
                            } else if j4 < s.len() && s[j4] == '}' {
                                proof {
                                    assert(r4[0] == s@[j4 as int]);
                                    assert(r4.subrange(1, r4.len() as int) =~= rest_of(
                                        s@,
                                        j4 as int + 1,
                                    ));
                                }
                                let mut out: Vec<(String, JsonValue)> = Vec::new();
                                out.push((key, v));
                                proof {
                                    reveal_with_fuel(crate::value::obj_model, 2);
                                    assert(out@.subrange(1, out@.len() as int) =~= Seq::<
                                        (String, JsonValue),
                                    >::empty());
                                    assert(crate::value::obj_model(out@) =~= seq![
                                        (kcs@, crate::value::jval_model(v)),
                                    ]);
                                }
                                Some((out, j4 + 1))
                            } else {
                                proof {
                                    if r4.len() > 0 {
                                        assert(r4[0] == s@[j4 as int]);
                                    }
                                }
                                None
                            }
                        },
                    }
                } else {
                    proof {
                        if r1.len() > 0 {
                            assert(r1[0] == s@[j1 as int]);
                        }
                    }
                    None
                }
            },
        }
    }
}

/// Parse a complete JSON text into a wire value.
pub fn parse_text(s: &str) -> (r: Option<JsonValue>)
    ensures
        match r {
            None => sp_parse(s@) is None,
            Some(v) => sp_parse(s@) == Some(crate::value::jval_model(v)),
        },
{
    let chars = str_to_chars(s);
    proof {
        assert(rest_of(chars@, 0) =~= chars@);
    }
    let j0 = skip_ws(&chars, 0);
    match p_value(&chars, j0) {
        None => None,
        Some((v, j1)) => {
            let j2 = skip_ws(&chars, j1);
            if j2 == chars.len() {
                Some(v)
            } else {
                proof {
                    assert(rest_of(chars@, j2 as int).len() > 0);
                }
                None
            }
        },
    }
}

/// Powers of ten are monotone in the exponent.
proof fn lemma_pow10_mono(m: nat, n: nat)
    requires
        m <= n,
    ensures
        pow10(m) <= pow10(n),
    decreases n,
{
    if m < n {
        lemma_pow10_mono(m, (n - 1) as nat);
        lemma_pow10_pos((n - 1) as nat);
    }
}

/// Powers of ten are positive.
proof fn lemma_pow10_pos(n: nat)
    ensures
        pow10(n) >= 1,
    decreases n,
{
    if n > 0 {
        lemma_pow10_pos((n - 1) as nat);
    }
}

} // verus!
