//! The round-trip laws: whatever this crate encodes, its parser reads
//! back, field for field.
//!
//! The laws hold for every well-formed value (integers within the
//! exchangeable range), with one caveat the wire format forces: an
//! optional field carrying an explicit `null` is written exactly like an
//! absent field, so it is read back as absent.  The request and response
//! laws therefore exclude `params`/`result` being `Some(null)`.

use vstd::prelude::*;
use crate::value::{JVal, wf_jval, wf_arr, wf_obj};
use crate::encode::{
    enc_jval, enc_arr, enc_obj, enc_string, enc_str_body, enc_int, dec_digits, esc_char, hex_char,
    is_ctl,
};
use crate::parse::{
    sp_ws, sp_value, sp_arr_items, sp_obj_items, sp_str_body, sp_number, sp_parse, take_digits,
    digits_val, is_ws, is_digit, digit_val, hex_val, esc_map, pow10,
};

verus! {

/// Skipping whitespace where none leads is a no-op.
proof fn lemma_ws_noop(s: Seq<char>)
    requires
        s.len() == 0 || !is_ws(s[0]),
    ensures
        sp_ws(s) == s,
{
}

/// Every character of a digit string is a digit.
proof fn lemma_dec_digits_are_digits(n: nat)
    ensures
        dec_digits(n).len() >= 1,
        forall|k: int| 0 <= k < dec_digits(n).len() ==> is_digit(#[trigger] dec_digits(n)[k]),
    decreases n,
{
    if n >= 10 {
        lemma_dec_digits_are_digits(n / 10);
        assert forall|k: int| 0 <= k < dec_digits(n).len() implies is_digit(
            #[trigger] dec_digits(n)[k],
        ) by {
            if k < dec_digits(n / 10).len() {
                assert(dec_digits(n)[k] == dec_digits(n / 10)[k]);
            } else {
                assert(dec_digits(n)[k] == hex_char((n % 10) as int));
            }
        }
    }
}

/// A digit string has no leading zero unless it denotes zero itself.
proof fn lemma_dec_digits_first(n: nat)
    ensures
        n == 0 ==> dec_digits(n) == seq!['0'],
        n > 0 ==> dec_digits(n)[0] != '0',
    decreases n,
{
    if n >= 10 {
        lemma_dec_digits_first(n / 10);
        lemma_dec_digits_are_digits(n / 10);
        assert(dec_digits(n)[0] == dec_digits(n / 10)[0]);
    }
}

/// The digit string of a number below ten to the `k` has at most `k`
/// digits.
proof fn lemma_dec_digits_len(n: nat, k: nat)
    requires
        k >= 1,
        n < pow10(k),
    ensures
        dec_digits(n).len() <= k,
    decreases n,
{
    if n >= 10 {
        assert(pow10(k) == 10 * pow10((k - 1) as nat));
        lemma_dec_digits_len(n / 10, (k - 1) as nat);
    }
}

/// Reading a digit string back gives the number it was written from.
proof fn lemma_digits_val_of_dec(n: nat)
    ensures
        digits_val(dec_digits(n)) == n,
    decreases n,
{
    if n < 10 {
        let ds = dec_digits(n);
        assert(ds.subrange(0, ds.len() - 1) =~= Seq::<char>::empty());
        assert(digits_val(Seq::<char>::empty()) == 0);
        assert(digit_val(hex_char(n as int)) == n);
    } else {
        lemma_digits_val_of_dec(n / 10);
        let whole = dec_digits(n);
        assert(whole.subrange(0, whole.len() - 1) =~= dec_digits(n / 10));
        assert(whole[whole.len() - 1] == hex_char((n % 10) as int));
        assert(digit_val(hex_char((n % 10) as int)) == n % 10);
    }
}

/// Scanning digits stops exactly where the digits end.
proof fn lemma_take_digits_of(ds: Seq<char>, rest: Seq<char>)
    requires
        forall|k: int| 0 <= k < ds.len() ==> is_digit(#[trigger] ds[k]),
        rest.len() == 0 || !is_digit(rest[0]),
    ensures
        take_digits(ds + rest) == (ds, rest),
    decreases ds.len(),
{
    let s = ds + rest;
    if ds.len() == 0 {
        assert(s =~= rest);
        assert(ds =~= Seq::<char>::empty());
    } else {
        assert(s[0] == ds[0]);
        lemma_take_digits_of(ds.subrange(1, ds.len() as int), rest);
        assert(s.subrange(1, s.len() as int) =~= ds.subrange(1, ds.len() as int) + rest);
        assert(seq![ds[0]] + ds.subrange(1, ds.len() as int) =~= ds);
    }
}

/// Reading an encoded integer back gives the integer, leaving exactly what
/// followed it, provided no digit follows immediately.
proof fn lemma_int_rt(n: int, rest: Seq<char>)
    requires
        crate::value::int_min() <= n <= crate::value::int_max(),
        rest.len() == 0 || !is_digit(rest[0]),
    ensures
        sp_number(enc_int(n) + rest) == Some((JVal::Int(n), rest)),
{
    reveal_with_fuel(pow10, 21);
    if n >= 0 {
        let ds = dec_digits(n as nat);
        let s = ds + rest;
        lemma_dec_digits_are_digits(n as nat);
        lemma_dec_digits_first(n as nat);
        lemma_dec_digits_len(n as nat, 20);
        lemma_digits_val_of_dec(n as nat);
        lemma_take_digits_of(ds, rest);
        assert(s[0] == ds[0]);
        assert(s[0] != '-');
        assert(enc_int(n) + rest =~= s);
    } else {
        let m = (-n) as nat;
        let ds = dec_digits(m);
        let s = enc_int(n) + rest;
        lemma_dec_digits_are_digits(m);
        lemma_dec_digits_first(m);
        lemma_dec_digits_len(m, 20);
        lemma_digits_val_of_dec(m);
        lemma_take_digits_of(ds, rest);
        assert(s[0] == '-');
        assert(s.subrange(1, s.len() as int) =~= ds + rest);
    }
}

/// The first character of an encoded value: never whitespace, never a
/// separator or a closer, so token dispatch is unambiguous.
proof fn lemma_enc_head(v: JVal)
    ensures
        enc_jval(v).len() > 0,
        !is_ws(enc_jval(v)[0]),
        enc_jval(v)[0] != ']',
        enc_jval(v)[0] != '}',
        enc_jval(v)[0] != ',',
        enc_jval(v)[0] != ':',
{
    match v {
        JVal::Int(n) => {
            if n >= 0 {
                lemma_dec_digits_are_digits(n as nat);
                assert(enc_jval(v)[0] == dec_digits(n as nat)[0]);
            } else {
                assert(enc_jval(v)[0] == '-');
            }
        },
        _ => {},
    }
}

/// Reading an escaped string body back gives the characters it was
/// written from, leaving exactly what followed the closing quote.
proof fn lemma_str_body_rt(s: Seq<char>, rest: Seq<char>)
    ensures
        sp_str_body(enc_str_body(s) + seq!['"'] + rest) == Some((s, rest)),
    decreases s.len(),
{
    let whole = enc_str_body(s) + seq!['"'] + rest;
    if s.len() == 0 {
        assert(whole[0] == '"');
        assert(whole.subrange(1, whole.len() as int) =~= rest);
    } else {
        let c = s[0];
        let tail = s.subrange(1, s.len() as int);
        lemma_str_body_rt(tail, rest);
        let tail_whole = enc_str_body(tail) + seq!['"'] + rest;
        if c == '"' {
            assert(whole[0] == '\\');
            assert(whole[1] == '"');
            assert(esc_map('"') == Some('"'));
            assert(whole.subrange(2, whole.len() as int) =~= tail_whole);
            assert(seq!['"'] + tail =~= s);
        } else if c == '\\' {
            assert(whole[0] == '\\');
            assert(whole[1] == '\\');
            assert(esc_map('\\') == Some('\\'));
            assert(whole.subrange(2, whole.len() as int) =~= tail_whole);
            assert(seq!['\\'] + tail =~= s);
        } else if is_ctl(c) {
            let u = c as u32;
            assert(whole[0] == '\\');
            assert(whole[1] == 'u');
            assert(whole[2] == '0');
            assert(whole[3] == '0');
            assert(whole[4] == hex_char(u as int / 16));
            assert(whole[5] == hex_char(u as int % 16));
            assert(hex_val('0') == 0);
            assert(hex_val(hex_char(u as int / 16)) == u as int / 16);
            assert(hex_val(hex_char(u as int % 16)) == u as int % 16);
            let code = ((0 * 4096 + 0 * 256 + (u as int / 16) * 16 + (u as int % 16)) as u32);
            assert(code == u);
            vstd::utf8::char_u32_cast(c, u);
            assert((code as char) == c);
            assert(whole.subrange(6, whole.len() as int) =~= tail_whole);
            assert(seq![c] + tail =~= s);
        } else {
            assert(whole[0] == c);
            assert(whole.subrange(1, whole.len() as int) =~= tail_whole);
            assert(seq![c] + tail =~= s);
        }
    }
}

/// Reading an encoded value back gives the value, leaving exactly what
/// followed it (which must not start with a digit, or it would be read as
/// part of a number).
#[verifier::rlimit(100)]
#[verifier::spinoff_prover]
pub proof fn lemma_jval_rt(v: JVal, rest: Seq<char>)
    requires
        wf_jval(v),
        rest.len() == 0 || !is_digit(rest[0]),
    ensures
        sp_value(enc_jval(v) + rest) == Some((v, rest)),
    decreases v, 0int,
{
    let s = enc_jval(v) + rest;
    match v {
        JVal::Null => {
            assert(s[0] == 'n' && s[1] == 'u' && s[2] == 'l' && s[3] == 'l');
            assert(s.subrange(4, s.len() as int) =~= rest);
        },
        JVal::Bool(b) => {
            if b {
                assert(s[0] == 't' && s[1] == 'r' && s[2] == 'u' && s[3] == 'e');
                assert(s.subrange(4, s.len() as int) =~= rest);
            } else {
                assert(s[0] == 'f' && s[1] == 'a' && s[2] == 'l' && s[3] == 's' && s[4] == 'e');
                assert(s.subrange(5, s.len() as int) =~= rest);
            }
        },
        JVal::Int(n) => {
            lemma_int_rt(n, rest);
            if n >= 0 {
                lemma_dec_digits_are_digits(n as nat);
                assert(s[0] == dec_digits(n as nat)[0]);
                assert(is_digit(s[0]));
            } else {
                assert(s[0] == '-');
            }
        },
        JVal::Str(cs) => {
            assert(s[0] == '"');
            lemma_str_body_rt(cs, rest);
            assert(s.subrange(1, s.len() as int) =~= enc_str_body(cs) + seq!['"'] + rest);
        },
        JVal::Arr(items) => {
            assert(s[0] == '[');
            let inner = enc_arr(items) + seq![']'] + rest;
            assert(s.subrange(1, s.len() as int) =~= inner);
            if items.len() == 0 {
                assert(inner =~= seq![']'] + rest);
                lemma_ws_noop(inner);
                assert(inner[0] == ']');
                assert(inner.subrange(1, inner.len() as int) =~= rest);
                assert(items =~= Seq::<JVal>::empty());
            } else {
                lemma_enc_head(items[0]);
                assert(enc_arr(items)[0] == enc_jval(items[0])[0]);
                assert(inner[0] == enc_jval(items[0])[0]);
                lemma_ws_noop(inner);
                lemma_arr_rt(items, rest);
            }
        },
        JVal::Obj(fields) => {
            assert(s[0] == '{');
            let inner = enc_obj(fields) + seq!['}'] + rest;
            assert(s.subrange(1, s.len() as int) =~= inner);
            if fields.len() == 0 {
                assert(inner =~= seq!['}'] + rest);
                lemma_ws_noop(inner);
                assert(inner[0] == '}');
                assert(inner.subrange(1, inner.len() as int) =~= rest);
                assert(fields =~= Seq::<(Seq<char>, JVal)>::empty());
            } else {
                assert(enc_obj(fields)[0] == enc_string(fields[0].0)[0]);
                assert(inner[0] == '"');
                lemma_ws_noop(inner);
                lemma_obj_rt(fields, rest);
            }
        },
    }
}

/// Reading encoded array items back gives the items and consumes the
/// closing bracket.
proof fn lemma_arr_rt(items: Seq<JVal>, rest: Seq<char>)
    requires
        wf_arr(items),
        items.len() >= 1,
    ensures
        sp_arr_items(enc_arr(items) + seq![']'] + rest) == Some((items, rest)),
    decreases items, 1int,
{
    let s = enc_arr(items) + seq![']'] + rest;
    if items.len() == 1 {
        let r0 = seq![']'] + rest;
        assert(s =~= enc_jval(items[0]) + r0);
        lemma_jval_rt(items[0], r0);
        lemma_ws_noop(r0);
        assert(r0[0] == ']');
        assert(r0.subrange(1, r0.len() as int) =~= rest);
        assert(seq![items[0]] =~= items);
    } else {
        let sub = items.subrange(1, items.len() as int);
        let r0 = seq![','] + enc_arr(sub) + seq![']'] + rest;
        assert(s =~= enc_jval(items[0]) + r0);
        lemma_jval_rt(items[0], r0);
        lemma_ws_noop(r0);
        assert(r0[0] == ',');
        let r2 = enc_arr(sub) + seq![']'] + rest;
        assert(r0.subrange(1, r0.len() as int) =~= r2);
        lemma_enc_head(sub[0]);
        assert(enc_arr(sub)[0] == enc_jval(sub[0])[0]);
        assert(r2[0] == enc_jval(sub[0])[0]);
        lemma_ws_noop(r2);
        lemma_enc_head(items[0]);
        assert(r2.len() < s.len());
        lemma_arr_rt(sub, rest);
        assert(seq![items[0]] + sub =~= items);
    }
}

/// Reading encoded object fields back gives the fields and consumes the
/// closing brace.
#[verifier::rlimit(100)]
#[verifier::spinoff_prover]
proof fn lemma_obj_rt(fields: Seq<(Seq<char>, JVal)>, rest: Seq<char>)
    requires
        wf_obj(fields),
        fields.len() >= 1,
    ensures
        sp_obj_items(enc_obj(fields) + seq!['}'] + rest) == Some((fields, rest)),
    decreases fields, 1int,
{
    let s = enc_obj(fields) + seq!['}'] + rest;
    let k = fields[0].0;
    let v = fields[0].1;
    let tail: Seq<char> = if fields.len() == 1 {
        seq!['}'] + rest
    } else {
        seq![','] + enc_obj(fields.subrange(1, fields.len() as int)) + seq!['}'] + rest
    };
    let r1 = seq![':'] + enc_jval(v) + tail;
    assert(s =~= enc_string(k) + r1);
    assert(s[0] == '"');
    assert(s.subrange(1, s.len() as int) =~= enc_str_body(k) + seq!['"'] + r1);
    lemma_str_body_rt(k, r1);
    lemma_ws_noop(r1);
    assert(r1[0] == ':');
    let r2 = enc_jval(v) + tail;
    assert(r1.subrange(1, r1.len() as int) =~= r2);
    lemma_enc_head(v);
    lemma_ws_noop(r2);
    assert(r2.len() < s.len());
    lemma_jval_rt(v, tail);
    lemma_ws_noop(tail);
    if fields.len() == 1 {
        assert(tail[0] == '}');
        assert(tail.subrange(1, tail.len() as int) =~= rest);
        assert(seq![(k, v)] =~= fields);
    } else {
        let sub = fields.subrange(1, fields.len() as int);
        assert(tail[0] == ',');
        let r5 = enc_obj(sub) + seq!['}'] + rest;
        assert(tail.subrange(1, tail.len() as int) =~= r5);
        assert(enc_obj(sub)[0] == enc_string(sub[0].0)[0]);
        assert(r5[0] == '"');
        lemma_ws_noop(r5);
        assert(r5.len() < s.len());
        lemma_obj_rt(sub, rest);
        assert(seq![(k, v)] + sub =~= fields);
    }
}

/// Parsing the encoding of a well-formed value yields the value.
pub proof fn lemma_parse_enc(v: JVal)
    requires
        wf_jval(v),
    ensures
        sp_parse(enc_jval(v)) == Some(v),
{
    let s = enc_jval(v);
    lemma_enc_head(v);
    lemma_ws_noop(s);
    assert(s + Seq::<char>::empty() =~= s);
    lemma_jval_rt(v, Seq::empty());
    lemma_ws_noop(Seq::empty());
}

/// An optional field as a wire value: `null` for absence.
pub open spec fn opt_jval(p: Option<JVal>) -> JVal {
    match p {
        None => JVal::Null,
        Some(v) => v,
    }
}

/// The object fields a request is written as.
pub open spec fn req_fields(r: crate::protocol::ReqView) -> Seq<(Seq<char>, JVal)> {
    seq![
        (crate::protocol::key_id(), JVal::Int(r.id)),
        (crate::protocol::key_method(), JVal::Str(r.method)),
        (crate::protocol::key_params(), opt_jval(r.params)),
    ]
}

/// The object fields a reported failure is written as.
pub open spec fn err_fields(e: crate::protocol::ErrView) -> Seq<(Seq<char>, JVal)> {
    seq![
        (crate::protocol::key_code(), JVal::Int(e.code)),
        (crate::protocol::key_message(), JVal::Str(e.message)),
    ]
}

/// The object fields a response is written as.
pub open spec fn resp_fields(r: crate::protocol::RespView) -> Seq<(Seq<char>, JVal)> {
    seq![
        (crate::protocol::key_id(), JVal::Int(r.id)),
        (crate::protocol::key_result(), opt_jval(r.result)),
        (
            crate::protocol::key_error(),
            match r.error {
                None => JVal::Null,
                Some(e) => JVal::Obj(err_fields(e)),
            },
        ),
    ]
}

/// The request encoding is exactly the value encoding of its fields.
proof fn lemma_enc_request_as_obj(r: crate::protocol::ReqView)
    requires
        r.id >= 0,
    ensures
        enc_jval(JVal::Obj(req_fields(r))) == crate::protocol::enc_request(r),
{
    let fs = req_fields(r);
    let ks = crate::protocol::key_id();
    let km = crate::protocol::key_method();
    let kp = crate::protocol::key_params();
    assert(fs.subrange(1, 3) =~= seq![fs[1], fs[2]]);
    assert(seq![fs[1], fs[2]].subrange(1, 2) =~= seq![fs[2]]);
    assert(enc_jval(JVal::Int(r.id)) == dec_digits(r.id as nat));
    assert(enc_jval(JVal::Str(r.method)) == enc_string(r.method));
    assert(enc_jval(opt_jval(r.params)) == crate::protocol::enc_opt(r.params));
    let e1 = enc_string(ks) + seq![':'] + dec_digits(r.id as nat);
    let e2 = enc_string(km) + seq![':'] + enc_string(r.method);
    let e3 = enc_string(kp) + seq![':'] + crate::protocol::enc_opt(r.params);
    assert(enc_obj(seq![fs[2]]) =~= e3);
    assert(enc_obj(seq![fs[1], fs[2]]) =~= e2 + seq![','] + e3);
    assert(enc_obj(fs) =~= e1 + seq![','] + (e2 + seq![','] + e3));
    assert(enc_jval(JVal::Obj(fs)) =~= crate::protocol::enc_request(r));
}

/// The failure encoding is exactly the value encoding of its fields.
proof fn lemma_enc_err_as_obj(e: crate::protocol::ErrView)
    ensures
        enc_jval(JVal::Obj(err_fields(e))) == crate::protocol::enc_rpc_error(e),
{
    let fs = err_fields(e);
    assert(fs.subrange(1, 2) =~= seq![fs[1]]);
    assert(enc_jval(JVal::Int(e.code)) == enc_int(e.code));
    assert(enc_jval(JVal::Str(e.message)) == enc_string(e.message));
    let e1 = enc_string(crate::protocol::key_code()) + seq![':'] + enc_int(e.code);
    let e2 = enc_string(crate::protocol::key_message()) + seq![':'] + enc_string(e.message);
    assert(enc_obj(seq![fs[1]]) =~= e2);
    assert(enc_obj(fs) =~= e1 + seq![','] + e2);
    assert(enc_jval(JVal::Obj(fs)) =~= crate::protocol::enc_rpc_error(e));
}

/// The response encoding is exactly the value encoding of its fields.
proof fn lemma_enc_response_as_obj(r: crate::protocol::RespView)
    requires
        r.id >= 0,
    ensures
        enc_jval(JVal::Obj(resp_fields(r))) == crate::protocol::enc_response(r),
{
    let fs = resp_fields(r);
    assert(fs.subrange(1, 3) =~= seq![fs[1], fs[2]]);
    assert(seq![fs[1], fs[2]].subrange(1, 2) =~= seq![fs[2]]);
    assert(enc_jval(JVal::Int(r.id)) == dec_digits(r.id as nat));
    assert(enc_jval(opt_jval(r.result)) == crate::protocol::enc_opt(r.result));
    assert(seq![fs[2]].subrange(1, 1) =~= Seq::<(Seq<char>, JVal)>::empty());
    let ev = match r.error {
        None => seq!['n', 'u', 'l', 'l'],
        Some(e) => crate::protocol::enc_rpc_error(e),
    };
    match r.error {
        None => {},
        Some(e) => {
            lemma_enc_err_as_obj(e);
        },
    }
    assert(enc_jval(fs[2].1) == ev);
    let e1 = enc_string(crate::protocol::key_id()) + seq![':'] + dec_digits(r.id as nat);
    let e2 = enc_string(crate::protocol::key_result()) + seq![':'] + crate::protocol::enc_opt(
        r.result,
    );
    let e3 = enc_string(crate::protocol::key_error()) + seq![':'] + ev;
    assert(enc_obj(seq![fs[2]]) =~= e3);
    assert(enc_obj(seq![fs[1], fs[2]]) =~= e2 + seq![','] + e3);
    assert(enc_obj(fs) =~= e1 + seq![','] + (e2 + seq![','] + e3));
    assert(enc_jval(JVal::Obj(fs)) =~= crate::protocol::enc_response(r));
}

/// Round-trip law for requests: decoding the encoding of a well-formed
/// request yields a request with the same `id`, the same `method` and
/// semantically equal `params`.  `params` carrying an explicit `null` is
/// excluded: the wire writes it exactly as an absent field.
pub proof fn lemma_request_round_trip(req: crate::protocol::Request)
    requires
        crate::protocol::wf_request(req@),
        req@.params != Some(JVal::Null),
    ensures
        crate::protocol::sp_decode_request(crate::protocol::enc_request(req@)) == Some(req@),
{
    let r = req@;
    let fs = req_fields(r);
    lemma_enc_request_as_obj(r);
    assert(fs.subrange(1, 3) =~= seq![fs[1], fs[2]]);
    assert(seq![fs[1], fs[2]].subrange(1, 2) =~= seq![fs[2]]);
    assert(seq![fs[2]].subrange(1, 1) =~= Seq::<(Seq<char>, JVal)>::empty());
    assert(wf_jval(opt_jval(r.params)));
    assert(wf_jval(JVal::Int(r.id)));
    assert(wf_jval(JVal::Str(r.method)));
    assert(wf_obj(Seq::<(Seq<char>, JVal)>::empty()));
    assert(wf_obj(seq![fs[2]]));
    assert(wf_obj(seq![fs[1], fs[2]]));
    assert(wf_obj(fs));
    assert(wf_jval(JVal::Obj(fs)));
    lemma_parse_enc(JVal::Obj(fs));
    reveal_with_fuel(crate::value::obj_lookup, 4);
    assert(crate::value::obj_lookup(fs, crate::protocol::key_id()) == Some(JVal::Int(r.id)));
    assert(crate::value::obj_lookup(fs, crate::protocol::key_method()) == Some(
        JVal::Str(r.method),
    ));
    assert(crate::value::obj_lookup(fs, crate::protocol::key_params()) == Some(
        opt_jval(r.params),
    ));
    assert(crate::protocol::req_of_jval(JVal::Obj(fs)) == Some(r));
}

/// Round-trip law for responses: decoding the encoding of a well-formed
/// response yields a response with the same `id`, semantically equal
/// `result` and the same `error`, each optional field included or absent
/// as it was.  `result` carrying an explicit `null` is excluded as above.
#[verifier::rlimit(100)]
#[verifier::spinoff_prover]
pub proof fn lemma_response_round_trip(resp: crate::protocol::Response)
    requires
        crate::protocol::wf_response(resp@),
        resp@.result != Some(JVal::Null),
    ensures
        crate::protocol::sp_decode_response(crate::protocol::enc_response(resp@)) == Some(resp@),
{
    let r = resp@;
    let fs = resp_fields(r);
    lemma_enc_response_as_obj(r);
    assert(fs.subrange(1, 3) =~= seq![fs[1], fs[2]]);
    assert(seq![fs[1], fs[2]].subrange(1, 2) =~= seq![fs[2]]);
    assert(seq![fs[2]].subrange(1, 1) =~= Seq::<(Seq<char>, JVal)>::empty());
    match r.error {
        None => {},
        Some(e) => {
            let efs = err_fields(e);
            assert(efs.subrange(1, 2) =~= seq![efs[1]]);
            assert(seq![efs[1]].subrange(1, 1) =~= Seq::<(Seq<char>, JVal)>::empty());
            assert(wf_obj(Seq::<(Seq<char>, JVal)>::empty()));
            assert(wf_jval(JVal::Int(e.code)));
            assert(wf_jval(JVal::Str(e.message)));
            assert(wf_obj(seq![efs[1]]));
            assert(wf_obj(efs));
            assert(wf_jval(JVal::Obj(efs)));
        },
    }
    assert(wf_jval(opt_jval(r.result)));
    assert(wf_jval(JVal::Int(r.id)));
    assert(wf_jval(fs[2].1));
    assert(wf_obj(Seq::<(Seq<char>, JVal)>::empty()));
    assert(wf_obj(seq![fs[2]]));
    assert(wf_obj(seq![fs[1], fs[2]]));
    assert(wf_obj(fs));
    assert(wf_jval(JVal::Obj(fs)));
    lemma_parse_enc(JVal::Obj(fs));
    reveal_with_fuel(crate::value::obj_lookup, 4);
    assert(crate::value::obj_lookup(fs, crate::protocol::key_id()) == Some(JVal::Int(r.id)));
    assert(crate::value::obj_lookup(fs, crate::protocol::key_result()) == Some(
        opt_jval(r.result),
    ));
    match r.error {
        None => {
            assert(crate::value::obj_lookup(fs, crate::protocol::key_error()) == Some(JVal::Null));
        },
        Some(e) => {
            let efs = err_fields(e);
            assert(crate::value::obj_lookup(fs, crate::protocol::key_error()) == Some(
                JVal::Obj(efs),
            ));
            assert(efs.subrange(1, 2) =~= seq![efs[1]]);
            assert(seq![efs[1]].subrange(1, 1) =~= Seq::<(Seq<char>, JVal)>::empty());
            assert(crate::value::obj_lookup(efs, crate::protocol::key_code()) == Some(
                JVal::Int(e.code),
            ));
            assert(crate::value::obj_lookup(efs, crate::protocol::key_message()) == Some(
                JVal::Str(e.message),
            ));
            assert(crate::protocol::err_of_jval(JVal::Obj(efs)) == Some(e));
        },
    }
    assert(crate::protocol::resp_of_jval(JVal::Obj(fs)) == Some(r));
}

} // verus!
