use ghost_text::codec::parse_activate_editing;
use ghost_text::dispatch::classify_request;
use ghost_text::dispatch::discovery_response;
use ghost_text::dispatch::RequestKind;

#[test]
fn classifies_a_websocket_handshake() {
    let peeked = b"GET / HTTP/1.1\r\nHost: 127.0.0.1:4001\r\nConnection: Upgrade\r\nUpgrade: websocket\r\nSec-WebSocket-Key: x\r\n\r\n";
    assert_eq!(classify_request(peeked), RequestKind::Upgrade);
}

#[test]
fn upgrade_marker_wins_over_the_request_line() {
    // the upgrade marker is checked first, wherever it stands
    let peeked = b"GET / HTTP/1.1\r\nUpgrade: websocket\r\n\r\n";
    assert_eq!(classify_request(peeked), RequestKind::Upgrade);
}

#[test]
fn classifies_a_discovery_request() {
    let peeked = b"GET / HTTP/1.1\r\nHost: x\r\n\r\n";
    assert_eq!(classify_request(peeked), RequestKind::Discovery);
}

#[test]
fn classifies_everything_else_as_unknown() {
    // a silent client: zero bytes peeked
    assert_eq!(classify_request(b""), RequestKind::Unknown);
    assert_eq!(classify_request(b"POST / HTTP/1.1\r\n\r\n"), RequestKind::Unknown);
    assert_eq!(classify_request(b"GET /other HTTP/1.1\r\n\r\n"), RequestKind::Unknown);
    assert_eq!(classify_request(b"\x16\x03\x01"), RequestKind::Unknown);
}

#[test]
fn discovery_response_is_a_complete_http_response() {
    let bytes = discovery_response();
    let text = String::from_utf8(bytes).unwrap();
    assert!(text.starts_with("HTTP/1.1 200 OK\r\n"));
    assert!(text.contains("Content-Type: application/json\r\n"));
    assert!(text.contains("Connection: close\r\n"));
    let body = text.split("\r\n\r\n").nth(1).expect("a body follows the headers");
    assert!(text.contains(&format!("Content-Length: {}\r\n", body.len())));
    let a = parse_activate_editing(body.as_bytes()).expect("the body is the discovery response");
    assert_eq!(a.protocol_version, 1);
    assert_eq!(a.web_socket_port, 4001);
    // a general JSON reader agrees on the body
    let v: serde_json::Value = serde_json::from_str(body).expect("valid JSON");
    assert_eq!(v["ProtocolVersion"], serde_json::Value::from(1u32));
    assert_eq!(v["WebSocketPort"], serde_json::Value::from(4001u32));
}
