//! Cross-checks against serde_json: what this crate encodes, serde_json
//! parses to the same structure, and what serde_json encodes, this crate
//! parses back.

use warpd_ipc::elements::status_request;
use warpd_ipc::protocol::{decode_response, encode_request};
use warpd_ipc::value::JsonValue;

#[test]
fn serde_json_reads_our_request_encoding() {
    let json = encode_request(&status_request());
    let value: serde_json::Value = serde_json::from_str(json.as_str()).expect("valid JSON");
    assert_eq!(value.get("id").and_then(|v| v.as_u64()), Some(1));
    assert_eq!(value.get("method").and_then(|v| v.as_str()), Some("status"));
    assert!(value.get("params").expect("params present").is_null());
}

#[test]
fn serde_json_reads_our_string_escapes() {
    let v = JsonValue::Str("a\"b\\c\nd\u{1}".to_string());
    let json = warpd_ipc::encode::encode_value(&v);
    let value: serde_json::Value = serde_json::from_str(json.as_str()).expect("valid JSON");
    assert_eq!(value.as_str(), Some("a\"b\\c\nd\u{1}"));
}

#[test]
fn we_read_serde_json_response_encoding() {
    let mut error = serde_json::Map::new();
    error.insert("code".to_string(), serde_json::Value::from(404));
    error.insert(
        "message".to_string(),
        serde_json::Value::from("no such element"),
    );
    let mut root = serde_json::Map::new();
    root.insert("id".to_string(), serde_json::Value::from(2u64));
    root.insert("result".to_string(), serde_json::Value::Null);
    root.insert("error".to_string(), serde_json::Value::Object(error));
    let text = serde_json::to_string(&serde_json::Value::Object(root)).expect("serialize");
    let resp = decode_response(text.as_str()).expect("decode");
    assert_eq!(resp.id, 2);
    assert!(resp.result.is_none());
    let err = resp.error.expect("error kept");
    assert_eq!(err.code, 404);
    assert_eq!(err.message, "no such element");
}
