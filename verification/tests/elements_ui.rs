use warpd_ipc::elements::{list_request, parse_elements, refresh_status, status_text, ElementItem};
use warpd_ipc::value::JsonValue;

fn obj(fields: Vec<(&str, JsonValue)>) -> JsonValue {
    JsonValue::Obj(
        fields
            .into_iter()
            .map(|(k, v)| (k.to_string(), v))
            .collect(),
    )
}

fn s(text: &str) -> JsonValue {
    JsonValue::Str(text.to_string())
}

#[test]
fn status_text_shows_version() {
    let result = obj(vec![("version", s("1.2.3"))]);
    let line = status_text(Some(&result));
    assert!(line.contains("1.2.3"));
    assert_eq!(line, "daemon: 1.2.3");
}

#[test]
fn status_text_without_version_is_connected() {
    let result = obj(vec![("uptime", JsonValue::Int(5))]);
    assert_eq!(status_text(Some(&result)), "IPC: connected");
    assert_eq!(status_text(Some(&obj(vec![]))), "IPC: connected");
}

#[test]
fn status_text_without_result_is_disconnected() {
    assert_eq!(status_text(None), "IPC: disconnected");
}

#[test]
fn elements_are_capped_at_fifty() {
    let mut items: Vec<JsonValue> = Vec::new();
    for i in 0..80 {
        items.push(obj(vec![("id", JsonValue::Int(i)), ("label", s("x"))]));
    }
    let result = obj(vec![("elements", JsonValue::Arr(items))]);
    let elements = parse_elements(&result);
    assert_eq!(elements.len(), 50);
    assert_eq!(elements[49].id, 49);
}

#[test]
fn element_fields_default_when_absent_or_mistyped() {
    let result = obj(vec![(
        "elements",
        JsonValue::Arr(vec![obj(vec![
            ("id", s("not a number")),
            ("label", JsonValue::Int(3)),
        ])]),
    )]);
    let elements = parse_elements(&result);
    assert_eq!(elements.len(), 1);
    assert_eq!(elements[0].id, 0);
    assert_eq!(elements[0].label, "");
    assert_eq!(elements[0].hint, "");
}

#[test]
fn elements_empty_when_shape_is_wrong() {
    assert_eq!(parse_elements(&JsonValue::Null).len(), 0);
    assert_eq!(parse_elements(&obj(vec![("elements", s("zzz"))])).len(), 0);
    assert_eq!(parse_elements(&obj(vec![])).len(), 0);
}

#[test]
fn display_line_prefers_label_then_desc_then_role() {
    let with_label = ElementItem {
        id: 1,
        hint: "aa".to_string(),
        label: "Save".to_string(),
        role: "button".to_string(),
        desc: "saves the file".to_string(),
    };
    assert_eq!(with_label.display_line(), "[aa] Save (button)");

    let no_label = ElementItem {
        id: 2,
        hint: "ab".to_string(),
        label: "".to_string(),
        role: "button".to_string(),
        desc: "closes the window".to_string(),
    };
    assert_eq!(no_label.display_line(), "[ab] closes the window");

    let bare = ElementItem {
        id: 3,
        hint: "ac".to_string(),
        label: "".to_string(),
        role: "button".to_string(),
        desc: "".to_string(),
    };
    assert_eq!(bare.display_line(), "[ac] button");
}

#[test]
fn list_request_shape() {
    let req = list_request();
    assert_eq!(req.id, 2);
    assert_eq!(req.method, "elements.list");
    assert!(req.params.is_none());
}

#[test]
fn refresh_status_lines() {
    assert_eq!(refresh_status(true), "elements refreshed");
    assert_eq!(refresh_status(false), "elements refresh failed");
}
