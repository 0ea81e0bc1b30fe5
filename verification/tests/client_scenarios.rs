use warpd_ipc::client::{response_outcome, IpcClient, IpcError};
use warpd_ipc::elements::{element_action_request, status_request};
use warpd_ipc::protocol::{encode_request, Request};
use warpd_ipc::value::JsonValue;

#[test]
fn request_while_disconnected_is_not_connected() {
    let client = IpcClient::new("/tmp/warpd.sock".to_string());
    let req = status_request();
    match client.begin_request(&req) {
        Err(IpcError::NotConnected) => {}
        other => panic!("expected NotConnected, got {:?}", other),
    }
}

#[test]
fn connect_failure_reports_connection_error_and_stays_disconnected() {
    let mut client = IpcClient::new("/tmp/warpd.sock".to_string());
    assert_eq!(client.on_connect(false), Err(IpcError::ConnectionError));
    let req = status_request();
    match client.begin_request(&req) {
        Err(IpcError::NotConnected) => {}
        other => panic!("expected NotConnected, got {:?}", other),
    }
}

#[test]
fn echoed_response_completes_one_exchange() {
    let mut client = IpcClient::new("/tmp/warpd.sock".to_string());
    client.on_connect(true).expect("connect");
    let req = status_request();
    let line = client.begin_request(&req).expect("framed line");
    assert!(line.ends_with('\n'));
    assert_eq!(line.matches('\n').count(), 1);
    // the peer echoes one syntactically valid response line back
    let echoed = "{\"id\":1,\"result\":{\"version\":\"0.9.0\"},\"error\":null}\n";
    let resp = client.finish_request(Some(echoed)).expect("decoded response");
    assert_eq!(resp.id, 1);
    assert!(resp.error.is_none());
    let result = resp.result.expect("result kept");
    match &result {
        JsonValue::Obj(fields) => {
            assert_eq!(fields.len(), 1);
            assert_eq!(fields[0].0, "version");
            assert_eq!(fields[0].1, JsonValue::Str("0.9.0".to_string()));
        }
        other => panic!("expected an object result, got {:?}", other),
    }
}

#[test]
fn framed_request_line_is_exact() {
    let req = status_request();
    assert_eq!(
        encode_request(&req),
        "{\"id\":1,\"method\":\"status\",\"params\":null}"
    );
}

#[test]
fn early_close_is_a_protocol_error() {
    let mut client = IpcClient::new("/tmp/warpd.sock".to_string());
    client.on_connect(true).expect("connect");
    // the peer closed before sending any line feed
    match client.finish_request(Some("")) {
        Err(IpcError::ProtocolError) => {}
        other => panic!("expected ProtocolError, got {:?}", other),
    }
    match client.finish_request(Some("{\"id\":1,\"resu")) {
        Err(IpcError::ProtocolError) => {}
        other => panic!("expected ProtocolError, got {:?}", other),
    }
    match client.finish_request(None) {
        Err(IpcError::ProtocolError) => {}
        other => panic!("expected ProtocolError, got {:?}", other),
    }
}

#[test]
fn click_exchange_surfaces_remote_failure() {
    let request = Request {
        id: 2,
        method: "elements.click".to_string(),
        params: Some(JsonValue::Obj(vec![("id".to_string(), JsonValue::Int(7))])),
    };
    assert_eq!(
        encode_request(&request),
        "{\"id\":2,\"method\":\"elements.click\",\"params\":{\"id\":7}}"
    );
    let mut client = IpcClient::new("/tmp/warpd.sock".to_string());
    client.on_connect(true).expect("connect");
    let peer = "{\"id\":2,\"result\":null,\"error\":{\"code\":404,\"message\":\"no such element\"}}\n";
    let resp = client.finish_request(Some(peer)).expect("decoded response");
    match response_outcome(resp) {
        Err(remote) => {
            assert_eq!(remote.code, 404);
            assert_eq!(remote.message, "no such element");
        }
        Ok(other) => panic!("expected a remote failure, got {:?}", other),
    }
}

#[test]
fn error_takes_precedence_over_result() {
    let mut client = IpcClient::new("/tmp/warpd.sock".to_string());
    client.on_connect(true).expect("connect");
    let peer = "{\"id\":5,\"result\":{\"ok\":true},\"error\":{\"code\":1,\"message\":\"boom\"}}\n";
    let resp = client.finish_request(Some(peer)).expect("decoded response");
    match response_outcome(resp) {
        Err(remote) => assert_eq!(remote.code, 1),
        Ok(other) => panic!("expected the error to win, got {:?}", other),
    }
}

#[test]
fn element_action_request_shape() {
    let req = element_action_request("elements.click", 12);
    assert_eq!(req.id, 3);
    assert_eq!(req.method, "elements.click");
    assert_eq!(
        req.params,
        Some(JsonValue::Obj(vec![("id".to_string(), JsonValue::Int(12))]))
    );
}
