//! Encoding wire values as JSON text.
//!
//! The encoder is total: every wire value has an encoding.  It emits no
//! whitespace, escapes `"`, `\` and every control character inside strings
//! (so in particular no line-feed ever appears in an encoded value, which
//! the line framing relies on), and writes integers in decimal with no
//! leading zeros.

use vstd::prelude::*;
use crate::value::{JVal, JsonValue};

verus! {

/// The sixteen hexadecimal digit characters, lower case.  The first ten
/// double as the decimal digit characters.
pub open spec fn hex_char(n: int) -> char {
    if n == 0 {
        '0'
    } else if n == 1 {
        '1'
    } else if n == 2 {
        '2'
    } else if n == 3 {
        '3'
    } else if n == 4 {
        '4'
    } else if n == 5 {
        '5'
    } else if n == 6 {
        '6'
    } else if n == 7 {
        '7'
    } else if n == 8 {
        '8'
    } else if n == 9 {
        '9'
    } else if n == 10 {
        'a'
    } else if n == 11 {
        'b'
    } else if n == 12 {
        'c'
    } else if n == 13 {
        'd'
    } else if n == 14 {
        'e'
    } else {
        'f'
    }
}

/// Control characters must not appear raw inside an encoded string.
pub open spec fn is_ctl(c: char) -> bool {
    (c as u32) < 0x20
}

/// How one character of a string is written on the wire.
pub open spec fn esc_char(c: char) -> Seq<char> {
    if c == '"' {
        seq!['\\', '"']
    } else if c == '\\' {
        seq!['\\', '\\']
    } else if is_ctl(c) {
        seq!['\\', 'u', '0', '0', hex_char((c as u32) as int / 16), hex_char((c as u32) as int % 16)]
    } else {
        seq![c]
    }
}

/// The escaped body of a string (without the surrounding quotes).
pub open spec fn enc_str_body(s: Seq<char>) -> Seq<char>
    decreases s.len(),
{
    if s.len() == 0 {
        Seq::empty()
    } else {
        esc_char(s[0]) + enc_str_body(s.subrange(1, s.len() as int))
    }
}

/// A string on the wire: quote, escaped body, quote.
pub open spec fn enc_string(s: Seq<char>) -> Seq<char> {
    seq!['"'] + enc_str_body(s) + seq!['"']
}

/// Decimal digits of a natural number, most significant first, no leading
/// zeros (`0` itself is the single digit `0`).
pub open spec fn dec_digits(n: nat) -> Seq<char>
    decreases n,
{
    if n < 10 {
        seq![hex_char(n as int)]
    } else {
        dec_digits(n / 10) + seq![hex_char((n % 10) as int)]
    }
}

/// An integer on the wire: an optional minus sign and decimal digits.
pub open spec fn enc_int(n: int) -> Seq<char> {
    if n >= 0 {
        dec_digits(n as nat)
    } else {
        seq!['-'] + dec_digits((-n) as nat)
    }
}

/// A wire value as JSON text.
pub open spec fn enc_jval(v: JVal) -> Seq<char>
    decreases v, 0int,
{
    match v {
        JVal::Null => seq!['n', 'u', 'l', 'l'],
        JVal::Bool(b) => if b {
            seq!['t', 'r', 'u', 'e']
        } else {
            seq!['f', 'a', 'l', 's', 'e']
        },
        JVal::Int(n) => enc_int(n),
        JVal::Str(s) => enc_string(s),
        JVal::Arr(items) => seq!['['] + enc_arr(items) + seq![']'],
        JVal::Obj(fields) => seq!['{'] + enc_obj(fields) + seq!['}'],
    }
}

/// Comma-separated encodings of array items.
pub open spec fn enc_arr(items: Seq<JVal>) -> Seq<char>
    decreases items, 1int,
{
    if items.len() == 0 {
        Seq::empty()
    } else if items.len() == 1 {
        enc_jval(items[0])
    } else {
        enc_jval(items[0]) + seq![','] + enc_arr(items.subrange(1, items.len() as int))
    }
}

/// Comma-separated `"key":value` encodings of object fields.
pub open spec fn enc_obj(fields: Seq<(Seq<char>, JVal)>) -> Seq<char>
    decreases fields, 1int,
{
    if fields.len() == 0 {
        Seq::empty()
    } else if fields.len() == 1 {
        enc_string(fields[0].0) + seq![':'] + enc_jval(fields[0].1)
    } else {
        enc_string(fields[0].0) + seq![':'] + enc_jval(fields[0].1) + seq![','] + enc_obj(
            fields.subrange(1, fields.len() as int),
        )
    }
}

/// The decimal digit characters as one-character string slices.
fn digit_str(d: u64) -> (r: &'static str)
    requires
        d < 10,
    ensures
        r@ == seq![hex_char(d as int)],
{
    let r = match d {
        0 => "0",
        1 => "1",
        2 => "2",
        3 => "3",
        4 => "4",
        5 => "5",
        6 => "6",
        7 => "7",
        8 => "8",
        _ => "9",
    };
    proof {
        reveal_strlit("0");
        reveal_strlit("1");
        reveal_strlit("2");
        reveal_strlit("3");
        reveal_strlit("4");
        reveal_strlit("5");
        reveal_strlit("6");
        reveal_strlit("7");
        reveal_strlit("8");
        reveal_strlit("9");
        assert(r@ =~= seq![hex_char(d as int)]);
    }
    r
}

/// The hexadecimal digit characters as one-character string slices.
fn hex_str(d: u32) -> (r: &'static str)
    requires
        d < 16,
    ensures
        r@ == seq![hex_char(d as int)],
{
    let r = match d {
        0 => "0",
        1 => "1",
        2 => "2",
        3 => "3",
        4 => "4",
        5 => "5",
        6 => "6",
        7 => "7",
        8 => "8",
        9 => "9",
        10 => "a",
        11 => "b",
        12 => "c",
        13 => "d",
        14 => "e",
        _ => "f",
    };
    proof {
        reveal_strlit("0");
        reveal_strlit("1");
        reveal_strlit("2");
        reveal_strlit("3");
        reveal_strlit("4");
        reveal_strlit("5");
        reveal_strlit("6");
        reveal_strlit("7");
        reveal_strlit("8");
        reveal_strlit("9");
        reveal_strlit("a");
        reveal_strlit("b");
        reveal_strlit("c");
        reveal_strlit("d");
        reveal_strlit("e");
        reveal_strlit("f");
        assert(r@ =~= seq![hex_char(d as int)]);
    }
    r
}

/// Decimal digits of `n`, most significant first.
pub fn encode_u64(n: u64) -> (r: String)
    ensures
        r@ == dec_digits(n as nat),
    decreases n,
{
    if n < 10 {
        String::from_str(digit_str(n))
    } else {
        let mut s = encode_u64(n / 10);
        s.append(digit_str(n % 10));
        s
    }
}

/// An in-range integer in decimal, with a minus sign if negative.
pub fn encode_int(n: i128) -> (r: String)
    requires
        i64::MIN as int <= n as int <= u64::MAX as int,
    ensures
        r@ == enc_int(n as int),
{
    if n >= 0 {
        encode_u64(n as u64)
    } else {
        let mag: u64 = (-n) as u64;
        let mut s = String::from_str("-");
        proof {
            reveal_strlit("-");
            assert(("-")@ =~= seq!['-']);
        }
        s.append(encode_u64(mag).as_str());
        s
    }
}

/// The escaped body of a string, from character `i` on.
fn encode_str_body(s: &str, i: usize, n: usize) -> (r: String)
    requires
        n == s@.len(),
        i <= n,
    ensures
        r@ == enc_str_body(s@.subrange(i as int, s@.len() as int)),
    decreases n - i,
{
    if i == n {
        let r = String::new();
        proof {
            assert(s@.subrange(i as int, s@.len() as int).len() == 0);
        }
        r
    } else {
        let c = s.get_char(i);
        let rest = encode_str_body(s, i + 1, n);
        let ghost tail = s@.subrange(i as int, s@.len() as int);
        proof {
            assert(tail[0] == s@[i as int]);
            assert(tail.subrange(1, tail.len() as int) =~= s@.subrange(
                i as int + 1,
                s@.len() as int,
            ));
        }
        let mut out: String;
        if c == '"' {
            out = String::from_str("\\\"");
            proof {
                reveal_strlit("\\\"");
                assert(out@ =~= seq!['\\', '"']);
            }
        } else if c == '\\' {
            out = String::from_str("\\\\");
            proof {
                reveal_strlit("\\\\");
                assert(out@ =~= seq!['\\', '\\']);
            }
        } else if (c as u32) < 0x20 {
            let code = c as u32;
            out = String::from_str("\\u00");
            out.append(hex_str(code / 16));
            out.append(hex_str(code % 16));
            proof {
                reveal_strlit("\\u00");
                assert(("\\u00")@ =~= seq!['\\', 'u', '0', '0']);
                assert(out@ =~= esc_char(c));
            }
        } else {
            out = String::from_str(s.substring_char(i, i + 1));
            proof {
                assert(s@.subrange(i as int, i as int + 1) =~= seq![c]);
            }
        }
        proof {
            assert(out@ == esc_char(c));
        }
        out.append(rest.as_str());
        proof {
            assert(out@ =~= enc_str_body(tail));
        }
        out
    }
}

/// A string on the wire, quotes and escapes included.
pub fn encode_string(s: &str) -> (r: String)
    ensures
        r@ == enc_string(s@),
{
    let n = s.unicode_len();
    let mut out = String::from_str("\"");
    proof {
        reveal_strlit("\"");
        assert(("\"")@ =~= seq!['"']);
    }
    let body = encode_str_body(s, 0, n);
    proof {
        assert(s@.subrange(0, s@.len() as int) =~= s@);
    }
    out.append(body.as_str());
    out.append("\"");
    proof {
        assert(out@ =~= enc_string(s@));
    }
    out
}

/// A wire value as JSON text.
pub fn encode_value(v: &JsonValue) -> (r: String)
    requires
        crate::value::wf_jval(v@),
    ensures
        r@ == enc_jval(v@),
    decreases *v, 0int, 0int,
{
    match v {
        JsonValue::Null => {
            let r = String::from_str("null");
            proof {
                reveal_strlit("null");
                assert(r@ =~= seq!['n', 'u', 'l', 'l']);
            }
            r
        },
        JsonValue::Bool(b) => {
            if *b {
                let r = String::from_str("true");
                proof {
                    reveal_strlit("true");
                    assert(r@ =~= seq!['t', 'r', 'u', 'e']);
                }
                r
            } else {
                let r = String::from_str("false");
                proof {
                    reveal_strlit("false");
                    assert(r@ =~= seq!['f', 'a', 'l', 's', 'e']);
                }
                r
            }
        },
        JsonValue::Int(n) => encode_int(*n),
        JsonValue::Str(s) => encode_string(s.as_str()),
        JsonValue::Arr(items) => {
            let mut out = String::from_str("[");
            proof {
                reveal_strlit("[");
                assert(("[")@ =~= seq!['[']);
            }
            let body = encode_arr_items(items, 0);
            proof {
                let ghost m = crate::value::arr_model(items@);
                assert(m.subrange(0, m.len() as int) =~= m);
            }
            out.append(body.as_str());
            out.append("]");
            proof {
                reveal_strlit("]");
                assert(("]")@ =~= seq![']']);
                assert(out@ =~= enc_jval(v@));
            }
            out
        },
        JsonValue::Obj(fields) => {
            let mut out = String::from_str("{");
            proof {
                reveal_strlit("{");
                assert(("{")@ =~= seq!['{']);
            }
            let body = encode_obj_fields(fields, 0);
            proof {
                let ghost m = crate::value::obj_model(fields@);
                assert(m.subrange(0, m.len() as int) =~= m);
            }
            out.append(body.as_str());
            out.append("}");
            proof {
                reveal_strlit("}");
                assert(("}")@ =~= seq!['}']);
                assert(out@ =~= enc_jval(v@));
            }
            out
        },
    }
}

/// The items of an array from index `i` on, comma separated.
fn encode_arr_items(items: &Vec<JsonValue>, i: usize) -> (r: String)
    requires
        i <= items@.len(),
        crate::value::wf_jval(JVal::Arr(crate::value::arr_model(items@))),
    ensures
        r@ == enc_arr(
            crate::value::arr_model(items@).subrange(
                i as int,
                crate::value::arr_model(items@).len() as int,
            ),
        ),
    decreases items@, 1int, items@.len() - i,
{
    let ghost m = crate::value::arr_model(items@);
    proof {
        lemma_arr_model_props(items@);
    }
    if i == items.len() {
        let r = String::new();
        proof {
            assert(m.subrange(i as int, m.len() as int).len() == 0);
        }
        r
    } else {
        proof {
            crate::value::lemma_wf_arr(m, i as int);
        }
        let mut out = encode_value(&items[i]);
        proof {
            assert(m.subrange(i as int, m.len() as int)[0] == m[i as int]);
        }
        if i + 1 == items.len() {
            proof {
                assert(m.subrange(i as int, m.len() as int).len() == 1);
            }
            out
        } else {
            out.append(",");
            proof {
                reveal_strlit(",");
                assert((",")@ =~= seq![',']);
            }
            let rest = encode_arr_items(items, i + 1);
            out.append(rest.as_str());
            proof {
                let ghost t = m.subrange(i as int, m.len() as int);
                assert(t.subrange(1, t.len() as int) =~= m.subrange(i as int + 1, m.len() as int));
                assert(out@ =~= enc_arr(t));
            }
            out
        }
    }
}

/// The fields of an object from index `i` on, comma separated.
fn encode_obj_fields(fields: &Vec<(String, JsonValue)>, i: usize) -> (r: String)
    requires
        i <= fields@.len(),
        crate::value::wf_jval(JVal::Obj(crate::value::obj_model(fields@))),
    ensures
        r@ == enc_obj(
            crate::value::obj_model(fields@).subrange(
                i as int,
                crate::value::obj_model(fields@).len() as int,
            ),
        ),
    decreases fields@, 1int, fields@.len() - i,
{
    let ghost m = crate::value::obj_model(fields@);
    proof {
        lemma_obj_model_props(fields@);
    }
    if i == fields.len() {
        let r = String::new();
        proof {
            assert(m.subrange(i as int, m.len() as int).len() == 0);
        }
        r
    } else {
        let mut out = encode_string(fields[i].0.as_str());
        out.append(":");
        proof {
            reveal_strlit(":");
            assert((":")@ =~= seq![':']);
        }
        proof {
            crate::value::lemma_wf_obj(m, i as int);
        }
        let v = encode_value(&fields[i].1);
        out.append(v.as_str());
        proof {
            assert(m.subrange(i as int, m.len() as int)[0] == m[i as int]);
        }
        if i + 1 == fields.len() {
            proof {
                assert(m.subrange(i as int, m.len() as int).len() == 1);
            }
            out
        } else {
            out.append(",");
            proof {
                reveal_strlit(",");
                assert((",")@ =~= seq![',']);
            }
            let rest = encode_obj_fields(fields, i + 1);
            out.append(rest.as_str());
            proof {
                let ghost t = m.subrange(i as int, m.len() as int);
                assert(t.subrange(1, t.len() as int) =~= m.subrange(i as int + 1, m.len() as int));
                assert(out@ =~= enc_obj(t));
            }
            out
        }
    }
}

/// No character of the sequence is a line feed.
pub open spec fn no_lf(s: Seq<char>) -> bool {
    forall|k: int| 0 <= k < s.len() ==> (#[trigger] s[k]) != '\n'
}

/// Concatenation preserves freedom from line feeds.
pub proof fn lemma_no_lf_concat(a: Seq<char>, b: Seq<char>)
    requires
        no_lf(a),
        no_lf(b),
    ensures
        no_lf(a + b),
{
    assert forall|k: int| 0 <= k < (a + b).len() implies (#[trigger] (a + b)[k]) != '\n' by {
        if k < a.len() {
            assert((a + b)[k] == a[k]);
        } else {
            assert((a + b)[k] == b[k - a.len()]);
        }
    }
}

/// Digit sequences hold no line feed.
proof fn lemma_dec_digits_no_lf(n: nat)
    ensures
        no_lf(dec_digits(n)),
    decreases n,
{
    if n >= 10 {
        lemma_dec_digits_no_lf(n / 10);
        lemma_no_lf_concat(dec_digits(n / 10), seq![hex_char((n % 10) as int)]);
    }
}

/// An escaped string body holds no line feed: raw characters are above the
/// control range and escapes spell the line feed out.
proof fn lemma_enc_str_body_no_lf(s: Seq<char>)
    ensures
        no_lf(enc_str_body(s)),
    decreases s.len(),
{
    if s.len() > 0 {
        lemma_enc_str_body_no_lf(s.subrange(1, s.len() as int));
        assert(no_lf(esc_char(s[0])));
        lemma_no_lf_concat(esc_char(s[0]), enc_str_body(s.subrange(1, s.len() as int)));
    }
}

/// An encoded string holds no line feed.
pub proof fn lemma_enc_string_no_lf(s: Seq<char>)
    ensures
        no_lf(enc_string(s)),
{
    lemma_enc_str_body_no_lf(s);
    lemma_no_lf_concat(seq!['"'], enc_str_body(s));
    lemma_no_lf_concat(seq!['"'] + enc_str_body(s), seq!['"']);
}

/// An encoded integer holds no line feed.
pub proof fn lemma_enc_int_no_lf(n: int)
    ensures
        no_lf(enc_int(n)),
{
    if n >= 0 {
        lemma_dec_digits_no_lf(n as nat);
    } else {
        lemma_dec_digits_no_lf((-n) as nat);
        lemma_no_lf_concat(seq!['-'], dec_digits((-n) as nat));
    }
}

/// An encoded value holds no line feed, so the line framing can never be
/// broken by a payload.
pub proof fn lemma_enc_jval_no_lf(v: JVal)
    ensures
        no_lf(enc_jval(v)),
    decreases v, 0int,
{
    match v {
        JVal::Null => {},
        JVal::Bool(_) => {},
        JVal::Int(n) => {
            lemma_enc_int_no_lf(n);
        },
        JVal::Str(s) => {
            lemma_enc_string_no_lf(s);
        },
        JVal::Arr(items) => {
            lemma_enc_arr_no_lf(items);
            lemma_no_lf_concat(seq!['['], enc_arr(items));
            lemma_no_lf_concat(seq!['['] + enc_arr(items), seq![']']);
        },
        JVal::Obj(fields) => {
            lemma_enc_obj_no_lf(fields);
            lemma_no_lf_concat(seq!['{'], enc_obj(fields));
            lemma_no_lf_concat(seq!['{'] + enc_obj(fields), seq!['}']);
        },
    }
}

/// Encoded array items hold no line feed.
proof fn lemma_enc_arr_no_lf(items: Seq<JVal>)
    ensures
        no_lf(enc_arr(items)),
    decreases items, 1int,
{
    if items.len() == 0 {
    } else if items.len() == 1 {
        lemma_enc_jval_no_lf(items[0]);
    } else {
        let sub = items.subrange(1, items.len() as int);
        lemma_enc_jval_no_lf(items[0]);
        lemma_enc_arr_no_lf(sub);
        lemma_no_lf_concat(enc_jval(items[0]), seq![',']);
        lemma_no_lf_concat(enc_jval(items[0]) + seq![','], enc_arr(sub));
    }
}

/// Encoded object fields hold no line feed.
proof fn lemma_enc_obj_no_lf(fields: Seq<(Seq<char>, JVal)>)
    ensures
        no_lf(enc_obj(fields)),
    decreases fields, 1int,
{
    if fields.len() == 0 {
    } else {
        lemma_enc_string_no_lf(fields[0].0);
        lemma_enc_jval_no_lf(fields[0].1);
        lemma_no_lf_concat(enc_string(fields[0].0), seq![':']);
        lemma_no_lf_concat(enc_string(fields[0].0) + seq![':'], enc_jval(fields[0].1));
        if fields.len() > 1 {
            let sub = fields.subrange(1, fields.len() as int);
            lemma_enc_obj_no_lf(sub);
            lemma_no_lf_concat(enc_string(fields[0].0) + seq![':'] + enc_jval(fields[0].1), seq![
                ',',
            ]);
            lemma_no_lf_concat(
                enc_string(fields[0].0) + seq![':'] + enc_jval(fields[0].1) + seq![','],
                enc_obj(sub),
            );
        }
    }
}

/// The model of a sequence of values has the same length and models each
/// element in place.
pub proof fn lemma_arr_model_props(items: Seq<JsonValue>)
    ensures
        crate::value::arr_model(items).len() == items.len(),
        forall|i: int|
            0 <= i < items.len() ==> crate::value::arr_model(items)[i] == crate::value::jval_model(
                #[trigger] items[i],
            ),
    decreases items,
{
    if items.len() > 0 {
        let sub = items.subrange(1, items.len() as int);
        lemma_arr_model_props(sub);
        assert forall|i: int|
            0 <= i < items.len() implies crate::value::arr_model(items)[i]
            == crate::value::jval_model(#[trigger] items[i]) by {
            if i > 0 {
                assert(sub[i - 1] == items[i]);
                assert(crate::value::arr_model(items)[i] == crate::value::arr_model(sub)[i - 1]);
            }
        }
    }
}

/// The model of a field sequence has the same length and models each field
/// in place.
pub proof fn lemma_obj_model_props(fields: Seq<(String, JsonValue)>)
    ensures
        crate::value::obj_model(fields).len() == fields.len(),
        forall|i: int|
            0 <= i < fields.len() ==> crate::value::obj_model(fields)[i] == (
                #[trigger] fields[i].0@,
                crate::value::jval_model(fields[i].1),
            ),
    decreases fields,
{
    if fields.len() > 0 {
        let sub = fields.subrange(1, fields.len() as int);
        lemma_obj_model_props(sub);
        assert forall|i: int|
            0 <= i < fields.len() implies crate::value::obj_model(fields)[i] == (
            #[trigger] fields[i].0@,
            crate::value::jval_model(fields[i].1),
        ) by {
            if i > 0 {
                assert(sub[i - 1] == fields[i]);
                assert(crate::value::obj_model(fields)[i] == crate::value::obj_model(sub)[i - 1]);
            }
        }
    }
}

} // verus!
