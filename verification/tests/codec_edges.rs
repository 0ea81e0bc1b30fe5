use warpd_ipc::encode::encode_value;
use warpd_ipc::parse::parse_text;
use warpd_ipc::value::JsonValue;

#[test]
fn strings_escape_and_roundtrip() {
    let v = JsonValue::Str("a\"b\\c\nd\te".to_string());
    let json = encode_value(&v);
    assert_eq!(json, "\"a\\\"b\\\\c\\u000ad\\u0009e\"");
    assert_eq!(parse_text(json.as_str()), Some(v));
}

#[test]
fn integers_roundtrip_across_the_range() {
    for n in [0i128, 1, -1, 42, i64::MIN as i128, u64::MAX as i128] {
        let v = JsonValue::Int(n);
        let json = encode_value(&v);
        assert_eq!(parse_text(json.as_str()), Some(JsonValue::Int(n)));
    }
    assert_eq!(encode_value(&JsonValue::Int(-7)), "-7");
    assert_eq!(
        encode_value(&JsonValue::Int(i64::MIN as i128)),
        "-9223372036854775808"
    );
}

#[test]
fn nested_values_roundtrip() {
    let v = JsonValue::Arr(vec![
        JsonValue::Null,
        JsonValue::Bool(false),
        JsonValue::Obj(vec![
            ("k".to_string(), JsonValue::Arr(vec![])),
            ("m".to_string(), JsonValue::Obj(vec![])),
        ]),
    ]);
    let json = encode_value(&v);
    assert_eq!(json, "[null,false,{\"k\":[],\"m\":{}}]");
    assert_eq!(parse_text(json.as_str()), Some(v));
}

#[test]
fn parser_accepts_whitespace_between_tokens() {
    let text = " { \"a\" : [ 1 , 2 ] , \"b\" : true } ";
    let parsed = parse_text(text).expect("parse");
    assert_eq!(
        parsed,
        JsonValue::Obj(vec![
            (
                "a".to_string(),
                JsonValue::Arr(vec![JsonValue::Int(1), JsonValue::Int(2)])
            ),
            ("b".to_string(), JsonValue::Bool(true)),
        ])
    );
}

#[test]
fn parser_accepts_unicode_escapes() {
    assert_eq!(
        parse_text("\"\\u0041\\u00e9\""),
        Some(JsonValue::Str("A\u{e9}".to_string()))
    );
    assert_eq!(
        parse_text("\"\\n\\t\\r\\b\\f\\/\\\\\\\"\""),
        Some(JsonValue::Str("\n\t\r\u{8}\u{c}/\\\"".to_string()))
    );
}

#[test]
fn parser_rejects_malformed_text() {
    for bad in [
        "",
        "{",
        "tru",
        "nulll",
        "01",
        "-",
        "1.5",
        "\"unterminated",
        "\"bad\\q\"",
        "\"\\ud800\"",
        "{\"a\":}",
        "{\"a\":1,}",
        "[1,]",
        "[1 2]",
        "{}{}",
        "99999999999999999999999",
        "18446744073709551616",
        "\"raw\ncontrol\"",
    ] {
        assert_eq!(parse_text(bad), None, "should reject: {}", bad);
    }
}

#[test]
fn parser_handles_number_edges() {
    // largest unsigned and smallest signed values on the wire
    assert_eq!(
        parse_text("18446744073709551615"),
        Some(JsonValue::Int(u64::MAX as i128))
    );
    assert_eq!(
        parse_text("-9223372036854775808"),
        Some(JsonValue::Int(i64::MIN as i128))
    );
    // one past either end is refused
    assert_eq!(parse_text("-9223372036854775809"), None);
    assert_eq!(parse_text("0"), Some(JsonValue::Int(0)));
    assert_eq!(parse_text("-0"), Some(JsonValue::Int(0)));
}
