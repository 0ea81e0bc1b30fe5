//! The three message shapes of the wire protocol, and their encodings.
//!
//! A request carries a caller-assigned `id`, a `method` name and optional
//! `params`; a response echoes an `id` and carries an optional `result`
//! and an optional `error`; a notification carries only `method` and
//! `params`.  Each is one JSON object.  Absent optional fields are written
//! as `null`; when read, a missing field and a `null` field mean the same
//! absence.

use vstd::prelude::*;
use crate::value::{JVal, JsonValue, jval_model, obj_model};
use crate::encode::{enc_jval, enc_string, dec_digits, enc_int};
use crate::parse::sp_parse;

verus! {

/// A command sent to the daemon.
#[derive(Debug, PartialEq, Eq)]
pub struct Request {
    pub id: u64,
    pub method: String,
    pub params: Option<JsonValue>,
}

/// The daemon's answer to a request.
#[derive(Debug, PartialEq, Eq)]
pub struct Response {
    pub id: u64,
    pub result: Option<JsonValue>,
    pub error: Option<RpcError>,
}

/// A fire-and-forget message: no `id`, no answer expected.
#[derive(Debug, PartialEq, Eq)]
pub struct Notification {
    pub method: String,
    pub params: Option<JsonValue>,
}

/// A failure the daemon reports for a requested operation.
#[derive(Debug, PartialEq, Eq)]
pub struct RpcError {
    pub code: i32,
    pub message: String,
}

/// Mathematical model of a request.
pub struct ReqView {
    pub id: int,
    pub method: Seq<char>,
    pub params: Option<JVal>,
}

/// Mathematical model of a response.
pub struct RespView {
    pub id: int,
    pub result: Option<JVal>,
    pub error: Option<ErrView>,
}

/// Mathematical model of a notification.
pub struct NotifView {
    pub method: Seq<char>,
    pub params: Option<JVal>,
}

/// Mathematical model of a reported failure.
pub struct ErrView {
    pub code: int,
    pub message: Seq<char>,
}

/// Model of an optional value field.
pub open spec fn opt_model(v: Option<JsonValue>) -> Option<JVal> {
    match v {
        None => None,
        Some(x) => Some(jval_model(x)),
    }
}

impl View for Request {
    type V = ReqView;

    open spec fn view(&self) -> ReqView {
        ReqView { id: self.id as int, method: self.method@, params: opt_model(self.params) }
    }
}

impl View for RpcError {
    type V = ErrView;

    open spec fn view(&self) -> ErrView {
        ErrView { code: self.code as int, message: self.message@ }
    }
}

impl View for Response {
    type V = RespView;

    open spec fn view(&self) -> RespView {
        RespView {
            id: self.id as int,
            result: opt_model(self.result),
            error: match self.error {
                None => None,
                Some(e) => Some(e@),
            },
        }
    }
}

impl View for Notification {
    type V = NotifView;

    open spec fn view(&self) -> NotifView {
        NotifView { method: self.method@, params: opt_model(self.params) }
    }
}

/// The field names of the wire protocol.
pub open spec fn key_id() -> Seq<char> {
    seq!['i', 'd']
}

pub open spec fn key_method() -> Seq<char> {
    seq!['m', 'e', 't', 'h', 'o', 'd']
}

pub open spec fn key_params() -> Seq<char> {
    seq!['p', 'a', 'r', 'a', 'm', 's']
}

pub open spec fn key_result() -> Seq<char> {
    seq!['r', 'e', 's', 'u', 'l', 't']
}

pub open spec fn key_error() -> Seq<char> {
    seq!['e', 'r', 'r', 'o', 'r']
}

pub open spec fn key_code() -> Seq<char> {
    seq!['c', 'o', 'd', 'e']
}

pub open spec fn key_message() -> Seq<char> {
    seq!['m', 'e', 's', 's', 'a', 'g', 'e']
}

/// An optional field on the wire: the value, or `null` for absence.
pub open spec fn enc_opt(v: Option<JVal>) -> Seq<char> {
    match v {
        None => seq!['n', 'u', 'l', 'l'],
        Some(x) => enc_jval(x),
    }
}

/// A request as JSON text: `{"id":…,"method":…,"params":…}`.
pub open spec fn enc_request(r: ReqView) -> Seq<char> {
    seq!['{'] + enc_string(key_id()) + seq![':'] + dec_digits(r.id as nat) + seq![',']
        + enc_string(key_method()) + seq![':'] + enc_string(r.method) + seq![','] + enc_string(
        key_params(),
    ) + seq![':'] + enc_opt(r.params) + seq!['}']
}

/// A reported failure as JSON text: `{"code":…,"message":…}`.
pub open spec fn enc_rpc_error(e: ErrView) -> Seq<char> {
    seq!['{'] + enc_string(key_code()) + seq![':'] + enc_int(e.code) + seq![','] + enc_string(
        key_message(),
    ) + seq![':'] + enc_string(e.message) + seq!['}']
}

/// A response as JSON text: `{"id":…,"result":…,"error":…}`.
pub open spec fn enc_response(r: RespView) -> Seq<char> {
    seq!['{'] + enc_string(key_id()) + seq![':'] + dec_digits(r.id as nat) + seq![',']
        + enc_string(key_result()) + seq![':'] + enc_opt(r.result) + seq![','] + enc_string(
        key_error(),
    ) + seq![':'] + (match r.error {
        None => seq!['n', 'u', 'l', 'l'],
        Some(e) => enc_rpc_error(e),
    }) + seq!['}']
}

/// A notification as JSON text: `{"method":…,"params":…}`.
pub open spec fn enc_notification(r: NotifView) -> Seq<char> {
    seq!['{'] + enc_string(key_method()) + seq![':'] + enc_string(r.method) + seq![',']
        + enc_string(key_params()) + seq![':'] + enc_opt(r.params) + seq!['}']
}

/// An optional field as read back: missing and `null` both mean absent.
pub open spec fn opt_field(fs: Seq<(Seq<char>, JVal)>, key: Seq<char>) -> Option<JVal> {
    match crate::value::obj_lookup(fs, key) {
        None => None,
        Some(JVal::Null) => None,
        Some(v) => Some(v),
    }
}

/// The request a parsed wire value denotes, if any: an object with an
/// in-range integer `id` and a string `method`.
pub open spec fn req_of_jval(v: JVal) -> Option<ReqView> {
    match v {
        JVal::Obj(fs) => match (
            crate::value::obj_lookup(fs, key_id()),
            crate::value::obj_lookup(fs, key_method()),
        ) {
            (Some(JVal::Int(n)), Some(JVal::Str(m))) => if 0 <= n <= u64::MAX as int {
                Some(ReqView { id: n, method: m, params: opt_field(fs, key_params()) })
            } else {
                None
            },
            _ => None,
        },
        _ => None,
    }
}

/// The reported failure an `error` field denotes, if any.
pub open spec fn err_of_jval(v: JVal) -> Option<ErrView> {
    match v {
        JVal::Obj(fs) => match (
            crate::value::obj_lookup(fs, key_code()),
            crate::value::obj_lookup(fs, key_message()),
        ) {
            (Some(JVal::Int(n)), Some(JVal::Str(m))) => if i32::MIN as int <= n <= i32::MAX
                as int {
                Some(ErrView { code: n, message: m })
            } else {
                None
            },
            _ => None,
        },
        _ => None,
    }
}

/// The response a parsed wire value denotes, if any.
pub open spec fn resp_of_jval(v: JVal) -> Option<RespView> {
    match v {
        JVal::Obj(fs) => match crate::value::obj_lookup(fs, key_id()) {
            Some(JVal::Int(n)) => if 0 <= n <= u64::MAX as int {
                match opt_field(fs, key_error()) {
                    None => Some(
                        RespView { id: n, result: opt_field(fs, key_result()), error: None },
                    ),
                    Some(e) => match err_of_jval(e) {
                        None => None,
                        Some(ev) => Some(
                            RespView {
                                id: n,
                                result: opt_field(fs, key_result()),
                                error: Some(ev),
                            },
                        ),
                    },
                }
            } else {
                None
            },
            _ => None,
        },
        _ => None,
    }
}

/// The integer a value holds, if it is a number.
fn as_int(v: &JsonValue) -> (r: Option<i128>)
    ensures
        match r {
            Some(n) => jval_model(*v) == JVal::Int(n as int),
            None => !(jval_model(*v) is Int),
        },
{
    match v {
        JsonValue::Int(n) => Some(*n),
        _ => None,
    }
}

/// The string a value holds, if it is a string.
fn take_str(v: JsonValue) -> (r: Option<String>)
    ensures
        match r {
            Some(s) => jval_model(v) == JVal::Str(s@),
            None => !(jval_model(v) is Str),
        },
{
    match v {
        JsonValue::Str(s) => Some(s),
        _ => None,
    }
}

/// The fields a value holds, if it is an object.
fn take_obj(v: JsonValue) -> (r: Option<Vec<(String, JsonValue)>>)
    ensures
        match r {
            Some(fs) => jval_model(v) == JVal::Obj(obj_model(fs@)),
            None => !(jval_model(v) is Obj),
        },
{
    match v {
        JsonValue::Obj(fs) => Some(fs),
        _ => None,
    }
}

/// While walking an object's fields, what has been learned about one key:
/// either no occurrence has been seen and the lookup continues in the
/// remaining fields, or the first occurrence is in hand.
spec fn slot_inv(
    slot: Option<JsonValue>,
    key: Seq<char>,
    m: Seq<(Seq<char>, JVal)>,
    mrest: Seq<(Seq<char>, JVal)>,
) -> bool {
    match slot {
        None => crate::value::obj_lookup(m, key) == crate::value::obj_lookup(mrest, key),
        Some(v) => crate::value::obj_lookup(m, key) == Some(jval_model(v)),
    }
}

/// The request denoted by an object's fields, if any.
fn req_from_fields(fields: Vec<(String, JsonValue)>) -> (r: Option<Request>)
    ensures
        match r {
            None => req_of_jval(JVal::Obj(obj_model(fields@))) is None,
            Some(req) => req_of_jval(JVal::Obj(obj_model(fields@))) == Some(req@),
        },
{
    let ghost m = obj_model(fields@);
    let mut rest = fields;
    let mut id_v: Option<JsonValue> = None;
    let mut method_v: Option<JsonValue> = None;
    let mut params_v: Option<JsonValue> = None;
    while rest.len() > 0
        invariant
            slot_inv(id_v, key_id(), m, obj_model(rest@)),
            slot_inv(method_v, key_method(), m, obj_model(rest@)),
            slot_inv(params_v, key_params(), m, obj_model(rest@)),
        decreases rest@.len(),
    {
        let ghost pre = rest@;
        let ghost m0 = obj_model(pre);
        let (k, v) = rest.remove(0);
        proof {
            assert(pre.subrange(1, pre.len() as int) =~= rest@);
            assert(m0[0] == (k@, jval_model(v)));
            assert(m0.subrange(1, m0.len() as int) =~= obj_model(rest@));
            crate::value::lemma_lookup_step(m0, key_id());
            crate::value::lemma_lookup_step(m0, key_method());
            crate::value::lemma_lookup_step(m0, key_params());
            reveal_strlit("id");
            reveal_strlit("method");
            reveal_strlit("params");
            assert(("id")@ =~= key_id());
            assert(("method")@ =~= key_method());
            assert(("params")@ =~= key_params());
        }
        if crate::value::str_eq(k.as_str(), "id") {
            if id_v.is_none() {
                id_v = Some(v);
            }
        } else if crate::value::str_eq(k.as_str(), "method") {
            if method_v.is_none() {
                method_v = Some(v);
            }
        } else if crate::value::str_eq(k.as_str(), "params") {
            if params_v.is_none() {
                params_v = Some(v);
            }
        }
    }
    proof {
        assert(rest@ =~= Seq::<(String, JsonValue)>::empty());
        assert(obj_model(rest@) =~= Seq::<(Seq<char>, JVal)>::empty());
    }
    match (id_v, method_v) {
        (Some(idval), Some(mval)) => {
            let idn = as_int(&idval);
            match (idn, take_str(mval)) {
                (Some(n), Some(name)) => {
                    if 0 <= n && n <= 0xFFFF_FFFF_FFFF_FFFFi128 {
                        let params = match params_v {
                            None => None,
                            Some(pv) => if crate::value::is_null(&pv) {
                                None
                            } else {
                                Some(pv)
                            },
                        };
                        Some(Request { id: n as u64, method: name, params })
                    } else {
                        None
                    }
                },
                _ => None,
            }
        },
        _ => None,
    }
}

/// The reported failure denoted by an object's fields, if any.
fn err_from_fields(fields: Vec<(String, JsonValue)>) -> (r: Option<RpcError>)
    ensures
        match r {
            None => err_of_jval(JVal::Obj(obj_model(fields@))) is None,
            Some(e) => err_of_jval(JVal::Obj(obj_model(fields@))) == Some(e@),
        },
{
    let ghost m = obj_model(fields@);
    let mut rest = fields;
    let mut code_v: Option<JsonValue> = None;
    let mut message_v: Option<JsonValue> = None;
    while rest.len() > 0
        invariant
            slot_inv(code_v, key_code(), m, obj_model(rest@)),
            slot_inv(message_v, key_message(), m, obj_model(rest@)),
        decreases rest@.len(),
    {
        let ghost pre = rest@;
        let ghost m0 = obj_model(pre);
        let (k, v) = rest.remove(0);
        proof {
            assert(pre.subrange(1, pre.len() as int) =~= rest@);
            assert(m0[0] == (k@, jval_model(v)));
            assert(m0.subrange(1, m0.len() as int) =~= obj_model(rest@));
            crate::value::lemma_lookup_step(m0, key_code());
            crate::value::lemma_lookup_step(m0, key_message());
            reveal_strlit("code");
            reveal_strlit("message");
            assert(("code")@ =~= key_code());
            assert(("message")@ =~= key_message());
        }
        if crate::value::str_eq(k.as_str(), "code") {
            if code_v.is_none() {
                code_v = Some(v);
            }
        } else if crate::value::str_eq(k.as_str(), "message") {
            if message_v.is_none() {
                message_v = Some(v);
            }
        }
    }
    proof {
        assert(rest@ =~= Seq::<(String, JsonValue)>::empty());
        assert(obj_model(rest@) =~= Seq::<(Seq<char>, JVal)>::empty());
    }
    match (code_v, message_v) {
        (Some(cval), Some(mval)) => {
            let cn = as_int(&cval);
            match (cn, take_str(mval)) {
                (Some(n), Some(msg)) => {
                    if -0x8000_0000i128 <= n && n <= 0x7FFF_FFFFi128 {
                        Some(RpcError { code: n as i32, message: msg })
                    } else {
                        None
                    }
                },
                _ => None,
            }
        },
        _ => None,
    }
}

/// The response denoted by an object's fields, if any.
fn resp_from_fields(fields: Vec<(String, JsonValue)>) -> (r: Option<Response>)
    ensures
        match r {
            None => resp_of_jval(JVal::Obj(obj_model(fields@))) is None,
            Some(resp) => resp_of_jval(JVal::Obj(obj_model(fields@))) == Some(resp@),
        },
{
    let ghost m = obj_model(fields@);
    let mut rest = fields;
    let mut id_v: Option<JsonValue> = None;
    let mut result_v: Option<JsonValue> = None;
    let mut error_v: Option<JsonValue> = None;
    while rest.len() > 0
        invariant
            slot_inv(id_v, key_id(), m, obj_model(rest@)),
            slot_inv(result_v, key_result(), m, obj_model(rest@)),
            slot_inv(error_v, key_error(), m, obj_model(rest@)),
        decreases rest@.len(),
    {
        let ghost pre = rest@;
        let ghost m0 = obj_model(pre);
        let (k, v) = rest.remove(0);
        proof {
            assert(pre.subrange(1, pre.len() as int) =~= rest@);
            assert(m0[0] == (k@, jval_model(v)));
            assert(m0.subrange(1, m0.len() as int) =~= obj_model(rest@));
            crate::value::lemma_lookup_step(m0, key_id());
            crate::value::lemma_lookup_step(m0, key_result());
            crate::value::lemma_lookup_step(m0, key_error());
            reveal_strlit("id");
            reveal_strlit("result");
            reveal_strlit("error");
            assert(("id")@ =~= key_id());
            assert(("result")@ =~= key_result());
            assert(("error")@ =~= key_error());
        }
        if crate::value::str_eq(k.as_str(), "id") {
            if id_v.is_none() {
                id_v = Some(v);
            }
        } else if crate::value::str_eq(k.as_str(), "result") {
            if result_v.is_none() {
                result_v = Some(v);
            }
        } else if crate::value::str_eq(k.as_str(), "error") {
            if error_v.is_none() {
                error_v = Some(v);
            }
        }
    }
    proof {
        assert(rest@ =~= Seq::<(String, JsonValue)>::empty());
        assert(obj_model(rest@) =~= Seq::<(Seq<char>, JVal)>::empty());
    }
    match id_v {
        Some(idval) => {
            match as_int(&idval) {
                Some(n) => {
                    if 0 <= n && n <= 0xFFFF_FFFF_FFFF_FFFFi128 {
                        let result = match result_v {
                            None => None,
                            Some(rv) => if crate::value::is_null(&rv) {
                                None
                            } else {
                                Some(rv)
                            },
                        };
                        match error_v {
                            None => Some(Response { id: n as u64, result, error: None }),
                            Some(ev) => {
                                if crate::value::is_null(&ev) {
                                    Some(Response { id: n as u64, result, error: None })
                                } else {
                                    match take_obj(ev) {
                                        None => None,
                                        Some(efields) => match err_from_fields(efields) {
                                            None => None,
                                            Some(e) => Some(
                                                Response { id: n as u64, result, error: Some(e) },
                                            ),
                                        },
                                    }
                                }
                            },
                        }
                    } else {
                        None
                    }
                },
                None => None,
            }
        },
        None => None,
    }
}

/// Decode a request from JSON text.
pub fn decode_request(s: &str) -> (r: Option<Request>)
    ensures
        match r {
            None => sp_decode_request(s@) is None,
            Some(req) => sp_decode_request(s@) == Some(req@),
        },
{
    match crate::parse::parse_text(s) {
        None => None,
        Some(v) => match take_obj(v) {
            None => None,
            Some(fields) => req_from_fields(fields),
        },
    }
}

/// Decode a response from JSON text.
pub fn decode_response(s: &str) -> (r: Option<Response>)
    ensures
        match r {
            None => sp_decode_response(s@) is None,
            Some(resp) => sp_decode_response(s@) == Some(resp@),
        },
{
    match crate::parse::parse_text(s) {
        None => None,
        Some(v) => match take_obj(v) {
            None => None,
            Some(fields) => resp_from_fields(fields),
        },
    }
}

/// The notification a parsed wire value denotes, if any: an object with a
/// string `method`.
pub open spec fn notif_of_jval(v: JVal) -> Option<NotifView> {
    match v {
        JVal::Obj(fs) => match crate::value::obj_lookup(fs, key_method()) {
            Some(JVal::Str(m)) => Some(
                NotifView { method: m, params: opt_field(fs, key_params()) },
            ),
            _ => None,
        },
        _ => None,
    }
}

/// What decoding a notification text yields.
pub open spec fn sp_decode_notification(s: Seq<char>) -> Option<NotifView> {
    match sp_parse(s) {
        None => None,
        Some(v) => notif_of_jval(v),
    }
}

/// The notification denoted by an object's fields, if any.
fn notif_from_fields(fields: Vec<(String, JsonValue)>) -> (r: Option<Notification>)
    ensures
        match r {
            None => notif_of_jval(JVal::Obj(obj_model(fields@))) is None,
            Some(n) => notif_of_jval(JVal::Obj(obj_model(fields@))) == Some(n@),
        },
{
    let ghost m = obj_model(fields@);
    let mut rest = fields;
    let mut method_v: Option<JsonValue> = None;
    let mut params_v: Option<JsonValue> = None;
    while rest.len() > 0
        invariant
            slot_inv(method_v, key_method(), m, obj_model(rest@)),
            slot_inv(params_v, key_params(), m, obj_model(rest@)),
        decreases rest@.len(),
    {
        let ghost pre = rest@;
        let ghost m0 = obj_model(pre);
        let (k, v) = rest.remove(0);
        proof {
            assert(pre.subrange(1, pre.len() as int) =~= rest@);
            assert(m0[0] == (k@, jval_model(v)));
            assert(m0.subrange(1, m0.len() as int) =~= obj_model(rest@));
            crate::value::lemma_lookup_step(m0, key_method());
            crate::value::lemma_lookup_step(m0, key_params());
            reveal_strlit("method");
            reveal_strlit("params");
            assert(("method")@ =~= key_method());
            assert(("params")@ =~= key_params());
        }
        if crate::value::str_eq(k.as_str(), "method") {
            if method_v.is_none() {
                method_v = Some(v);
            }
        } else if crate::value::str_eq(k.as_str(), "params") {
            if params_v.is_none() {
                params_v = Some(v);
            }
        }
    }
    proof {
        assert(rest@ =~= Seq::<(String, JsonValue)>::empty());
        assert(obj_model(rest@) =~= Seq::<(Seq<char>, JVal)>::empty());
    }
    match method_v {
        Some(mval) => match take_str(mval) {
            Some(name) => {
                let params = match params_v {
                    None => None,
                    Some(pv) => if crate::value::is_null(&pv) {
                        None
                    } else {
                        Some(pv)
                    },
                };
                Some(Notification { method: name, params })
            },
            None => None,
        },
        None => None,
    }
}

/// Decode a notification from JSON text.
pub fn decode_notification(s: &str) -> (r: Option<Notification>)
    ensures
        match r {
            None => sp_decode_notification(s@) is None,
            Some(n) => sp_decode_notification(s@) == Some(n@),
        },
{
    match crate::parse::parse_text(s) {
        None => None,
        Some(v) => match take_obj(v) {
            None => None,
            Some(fields) => notif_from_fields(fields),
        },
    }
}

/// What decoding a request text yields.
pub open spec fn sp_decode_request(s: Seq<char>) -> Option<ReqView> {
    match sp_parse(s) {
        None => None,
        Some(v) => req_of_jval(v),
    }
}

/// What decoding a response text yields.
pub open spec fn sp_decode_response(s: Seq<char>) -> Option<RespView> {
    match sp_parse(s) {
        None => None,
        Some(v) => resp_of_jval(v),
    }
}

/// A string of plain characters (nothing to escape) encodes as itself.
proof fn lemma_enc_plain(s: Seq<char>)
    requires
        forall|k: int|
            0 <= k < s.len() ==> (#[trigger] s[k]) != '"' && s[k] != '\\' && !crate::encode::is_ctl(
                s[k],
            ),
    ensures
        crate::encode::enc_str_body(s) == s,
        enc_string(s) == seq!['"'] + s + seq!['"'],
    decreases s.len(),
{
    if s.len() == 0 {
        assert(crate::encode::enc_str_body(s) =~= s);
    } else {
        let sub = s.subrange(1, s.len() as int);
        lemma_enc_plain(sub);
        assert(crate::encode::esc_char(s[0]) == seq![s[0]]);
        assert(crate::encode::enc_str_body(s) =~= s);
    }
    assert(enc_string(s) =~= seq!['"'] + s + seq!['"']);
}

/// Encode a request for the wire.
pub fn encode_request(req: &Request) -> (r: String)
    requires
        wf_request(req@),
    ensures
        r@ == enc_request(req@),
{
    let mut out = String::from_str("{\"id\":");
    proof {
        reveal_strlit("{\"id\":");
        lemma_enc_plain(key_id());
        assert(("{\"id\":")@ =~= seq!['{'] + enc_string(key_id()) + seq![':']);
    }
    out.append(crate::encode::encode_u64(req.id).as_str());
    out.append(",\"method\":");
    proof {
        reveal_strlit(",\"method\":");
        lemma_enc_plain(key_method());
        assert((",\"method\":")@ =~= seq![','] + enc_string(key_method()) + seq![':']);
    }
    out.append(crate::encode::encode_string(req.method.as_str()).as_str());
    out.append(",\"params\":");
    proof {
        reveal_strlit(",\"params\":");
        lemma_enc_plain(key_params());
        assert((",\"params\":")@ =~= seq![','] + enc_string(key_params()) + seq![':']);
    }
    match &req.params {
        None => {
            out.append("null");
            proof {
                reveal_strlit("null");
                assert(("null")@ =~= seq!['n', 'u', 'l', 'l']);
            }
        },
        Some(v) => {
            let enc = crate::encode::encode_value(v);
            out.append(enc.as_str());
        },
    }
    out.append("}");
    proof {
        reveal_strlit("}");
        assert(("}")@ =~= seq!['}']);
        assert(out@ =~= enc_request(req@));
    }
    out
}

/// Encode a reported failure for the wire.
pub fn encode_rpc_error(e: &RpcError) -> (r: String)
    ensures
        r@ == enc_rpc_error(e@),
{
    let mut out = String::from_str("{\"code\":");
    proof {
        reveal_strlit("{\"code\":");
        lemma_enc_plain(key_code());
        assert(("{\"code\":")@ =~= seq!['{'] + enc_string(key_code()) + seq![':']);
    }
    out.append(crate::encode::encode_int(e.code as i128).as_str());
    out.append(",\"message\":");
    proof {
        reveal_strlit(",\"message\":");
        lemma_enc_plain(key_message());
        assert((",\"message\":")@ =~= seq![','] + enc_string(key_message()) + seq![':']);
    }
    out.append(crate::encode::encode_string(e.message.as_str()).as_str());
    out.append("}");
    proof {
        reveal_strlit("}");
        assert(("}")@ =~= seq!['}']);
        assert(out@ =~= enc_rpc_error(e@));
    }
    out
}

/// Encode a response for the wire.
pub fn encode_response(resp: &Response) -> (r: String)
    requires
        wf_response(resp@),
    ensures
        r@ == enc_response(resp@),
{
    let mut out = String::from_str("{\"id\":");
    proof {
        reveal_strlit("{\"id\":");
        lemma_enc_plain(key_id());
        assert(("{\"id\":")@ =~= seq!['{'] + enc_string(key_id()) + seq![':']);
    }
    out.append(crate::encode::encode_u64(resp.id).as_str());
    out.append(",\"result\":");
    proof {
        reveal_strlit(",\"result\":");
        lemma_enc_plain(key_result());
        assert((",\"result\":")@ =~= seq![','] + enc_string(key_result()) + seq![':']);
    }
    match &resp.result {
        None => {
            out.append("null");
            proof {
                reveal_strlit("null");
                assert(("null")@ =~= seq!['n', 'u', 'l', 'l']);
            }
        },
        Some(v) => {
            let enc = crate::encode::encode_value(v);
            out.append(enc.as_str());
        },
    }
    out.append(",\"error\":");
    proof {
        reveal_strlit(",\"error\":");
        lemma_enc_plain(key_error());
        assert((",\"error\":")@ =~= seq![','] + enc_string(key_error()) + seq![':']);
    }
    match &resp.error {
        None => {
            out.append("null");
            proof {
                reveal_strlit("null");
                assert(("null")@ =~= seq!['n', 'u', 'l', 'l']);
            }
        },
        Some(e) => {
            let enc = encode_rpc_error(e);
            out.append(enc.as_str());
        },
    }
    out.append("}");
    proof {
        reveal_strlit("}");
        assert(("}")@ =~= seq!['}']);
        assert(out@ =~= enc_response(resp@));
    }
    out
}

/// Encode a notification for the wire.
pub fn encode_notification(n: &Notification) -> (r: String)
    requires
        match n@.params {
            None => true,
            Some(v) => crate::value::wf_jval(v),
        },
    ensures
        r@ == enc_notification(n@),
{
    let mut out = String::from_str("{\"method\":");
    proof {
        reveal_strlit("{\"method\":");
        lemma_enc_plain(key_method());
        assert(("{\"method\":")@ =~= seq!['{'] + enc_string(key_method()) + seq![':']);
    }
    out.append(crate::encode::encode_string(n.method.as_str()).as_str());
    out.append(",\"params\":");
    proof {
        reveal_strlit(",\"params\":");
        lemma_enc_plain(key_params());
        assert((",\"params\":")@ =~= seq![','] + enc_string(key_params()) + seq![':']);
    }
    match &n.params {
        None => {
            out.append("null");
            proof {
                reveal_strlit("null");
                assert(("null")@ =~= seq!['n', 'u', 'l', 'l']);
            }
        },
        Some(v) => {
            let enc = crate::encode::encode_value(v);
            out.append(enc.as_str());
        },
    }
    out.append("}");
    proof {
        reveal_strlit("}");
        assert(("}")@ =~= seq!['}']);
        assert(out@ =~= enc_notification(n@));
    }
    out
}

/// An encoded request holds no line feed: the framing byte that ends a
/// line can never occur inside a payload.
pub proof fn lemma_enc_request_no_lf(r: ReqView)
    ensures
        crate::encode::no_lf(enc_request(r)),
{
    let seg1 = seq!['{'] + enc_string(key_id()) + seq![':'];
    let seg2 = dec_digits(r.id as nat);
    let seg3 = seq![','] + enc_string(key_method()) + seq![':'];
    let seg4 = enc_string(r.method);
    let seg5 = seq![','] + enc_string(key_params()) + seq![':'];
    let seg6 = enc_opt(r.params);
    crate::encode::lemma_enc_string_no_lf(key_id());
    crate::encode::lemma_enc_string_no_lf(key_method());
    crate::encode::lemma_enc_string_no_lf(key_params());
    crate::encode::lemma_enc_string_no_lf(r.method);
    crate::encode::lemma_enc_int_no_lf(r.id as nat as int);
    assert(seg2 == crate::encode::enc_int(r.id as nat as int));
    match r.params {
        None => {},
        Some(v) => {
            crate::encode::lemma_enc_jval_no_lf(v);
        },
    }
    crate::encode::lemma_no_lf_concat(seq!['{'], enc_string(key_id()));
    crate::encode::lemma_no_lf_concat(seq!['{'] + enc_string(key_id()), seq![':']);
    crate::encode::lemma_no_lf_concat(seg1, seg2);
    crate::encode::lemma_no_lf_concat(seq![','], enc_string(key_method()));
    crate::encode::lemma_no_lf_concat(seq![','] + enc_string(key_method()), seq![':']);
    crate::encode::lemma_no_lf_concat(seg1 + seg2, seg3);
    crate::encode::lemma_no_lf_concat(seg1 + seg2 + seg3, seg4);
    crate::encode::lemma_no_lf_concat(seq![','], enc_string(key_params()));
    crate::encode::lemma_no_lf_concat(seq![','] + enc_string(key_params()), seq![':']);
    crate::encode::lemma_no_lf_concat(seg1 + seg2 + seg3 + seg4, seg5);
    crate::encode::lemma_no_lf_concat(seg1 + seg2 + seg3 + seg4 + seg5, seg6);
    crate::encode::lemma_no_lf_concat(seg1 + seg2 + seg3 + seg4 + seg5 + seg6, seq!['}']);
    assert(enc_request(r) =~= seg1 + seg2 + seg3 + seg4 + seg5 + seg6 + seq!['}']);
}

/// A request is well formed when its parameters, if any, carry only
/// in-range integers.
pub open spec fn wf_request(r: ReqView) -> bool {
    match r.params {
        None => true,
        Some(v) => crate::value::wf_jval(v),
    }
}

/// Runtime check of [`wf_request`].
pub fn check_request_wf(req: &Request) -> (r: bool)
    ensures
        r == wf_request(req@),
{
    match &req.params {
        None => true,
        Some(v) => crate::value::check_wf(v),
    }
}

/// A response is well formed when its result, if any, carries only
/// in-range integers.
pub open spec fn wf_response(r: RespView) -> bool {
    match r.result {
        None => true,
        Some(v) => crate::value::wf_jval(v),
    }
}

} // verus!
