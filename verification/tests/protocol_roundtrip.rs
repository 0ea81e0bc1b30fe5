use warpd_ipc::protocol::{
    decode_notification, decode_request, decode_response, encode_notification, encode_request,
    encode_response,
};
use warpd_ipc::protocol::{Notification, Request, Response, RpcError};
use warpd_ipc::value::JsonValue;

fn verbose_params() -> Option<JsonValue> {
    Some(JsonValue::Obj(vec![("verbose".to_string(), JsonValue::Bool(true))]))
}

#[test]
fn request_roundtrip() {
    let request = Request {
        id: 1,
        method: "status".to_string(),
        params: verbose_params(),
    };
    let json = encode_request(&request);
    let parsed: Request = decode_request(json.as_str()).expect("deserialize");
    assert_eq!(parsed.id, 1);
    assert_eq!(parsed.method, "status");
    assert_eq!(parsed.params, request.params);
}

#[test]
fn response_roundtrip() {
    let response = Response {
        id: 2,
        result: Some(JsonValue::Obj(vec![("ok".to_string(), JsonValue::Bool(true))])),
        error: None,
    };
    let json = encode_response(&response);
    let parsed: Response = decode_response(json.as_str()).expect("deserialize");
    assert_eq!(parsed.id, 2);
    assert_eq!(parsed.result, response.result);
    assert!(parsed.error.is_none());
}

#[test]
fn request_roundtrip_no_params() {
    let request = Request {
        id: 7,
        method: "elements.list".to_string(),
        params: None,
    };
    let json = encode_request(&request);
    assert_eq!(json, "{\"id\":7,\"method\":\"elements.list\",\"params\":null}");
    let parsed = decode_request(json.as_str()).expect("decode");
    assert_eq!(parsed.id, 7);
    assert_eq!(parsed.method, "elements.list");
    assert!(parsed.params.is_none());
}

#[test]
fn response_roundtrip_with_error() {
    let response = Response {
        id: 9,
        result: None,
        error: Some(RpcError {
            code: -32600,
            message: "bad \"quoted\" request\n".to_string(),
        }),
    };
    let json = encode_response(&response);
    assert!(!json.contains('\n'));
    let parsed = decode_response(json.as_str()).expect("decode");
    assert_eq!(parsed.id, 9);
    assert!(parsed.result.is_none());
    let err = parsed.error.expect("error kept");
    assert_eq!(err.code, -32600);
    assert_eq!(err.message, "bad \"quoted\" request\n");
}

#[test]
fn response_roundtrip_both_absent() {
    let response = Response {
        id: 3,
        result: None,
        error: None,
    };
    let json = encode_response(&response);
    assert_eq!(json, "{\"id\":3,\"result\":null,\"error\":null}");
    let parsed = decode_response(json.as_str()).expect("decode");
    assert_eq!(parsed.id, 3);
    assert!(parsed.result.is_none());
    assert!(parsed.error.is_none());
}

#[test]
fn request_roundtrip_full_range_id() {
    let request = Request {
        id: u64::MAX,
        method: "m".to_string(),
        params: None,
    };
    let json = encode_request(&request);
    let parsed = decode_request(json.as_str()).expect("decode");
    assert_eq!(parsed.id, u64::MAX);
}

#[test]
fn decode_accepts_missing_optional_fields() {
    let parsed = decode_response("{\"id\":4}").expect("decode");
    assert_eq!(parsed.id, 4);
    assert!(parsed.result.is_none());
    assert!(parsed.error.is_none());
}

#[test]
fn notification_roundtrip() {
    let note = Notification {
        method: "cursor.moved".to_string(),
        params: Some(JsonValue::Arr(vec![JsonValue::Int(4), JsonValue::Int(-2)])),
    };
    let json = encode_notification(&note);
    assert_eq!(json, "{\"method\":\"cursor.moved\",\"params\":[4,-2]}");
    let parsed = decode_notification(json.as_str()).expect("decode");
    assert_eq!(parsed.method, "cursor.moved");
    assert_eq!(parsed.params, note.params);
}

#[test]
fn decode_rejects_missing_id() {
    assert!(decode_response("{\"result\":null,\"error\":null}").is_none());
    assert!(decode_request("{\"method\":\"x\",\"params\":null}").is_none());
}

#[test]
fn decode_rejects_malformed_error_object() {
    assert!(decode_response("{\"id\":1,\"error\":{\"code\":\"x\",\"message\":\"y\"}}").is_none());
    assert!(decode_response("{\"id\":1,\"error\":7}").is_none());
}
