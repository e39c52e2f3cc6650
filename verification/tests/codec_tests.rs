use ghost_text::codec::encode_activate_editing;
use ghost_text::codec::encode_editor_change;
use ghost_text::codec::parse_activate_editing;
use ghost_text::codec::parse_browser_change;
use ghost_text::data::ActivateEditing;
use ghost_text::data::EditorChange;
use ghost_text::data::Selection;

fn bc(frame: &str) -> Option<ghost_text::data::BrowserChange> {
    parse_browser_change(frame.as_bytes())
}

const VALID: &str =
    r#"{"title":"t","url":"u","syntax":"s","text":"hello","selections":[{"start":0,"end":5}]}"#;

#[test]
fn discovery_round_trip() {
    let a = ActivateEditing { protocol_version: 1, web_socket_port: 4001 };
    let bytes = encode_activate_editing(&a);
    let parsed = parse_activate_editing(&bytes).expect("round trip");
    assert_eq!(parsed.protocol_version, 1);
    assert_eq!(parsed.web_socket_port, 4001);
}

#[test]
fn discovery_round_trip_extremes() {
    for (p, w) in [(0u32, 0u32), (u32::MAX, u32::MAX), (7, 65535)] {
        let a = ActivateEditing { protocol_version: p, web_socket_port: w };
        let parsed = parse_activate_editing(&encode_activate_editing(&a)).expect("round trip");
        assert_eq!(parsed.protocol_version, p);
        assert_eq!(parsed.web_socket_port, w);
    }
}

#[test]
fn discovery_field_names_exact() {
    let a = ActivateEditing { protocol_version: 1, web_socket_port: 4001 };
    let bytes = encode_activate_editing(&a);
    assert_eq!(
        String::from_utf8(bytes).unwrap(),
        r#"{"ProtocolVersion":1,"WebSocketPort":4001}"#
    );
}

#[test]
fn discovery_parse_accepts_whitespace_and_order() {
    let doc = " {\n\t\"WebSocketPort\" : 4001 , \"ProtocolVersion\" : 1 } ";
    let parsed = parse_activate_editing(doc.as_bytes()).expect("parses");
    assert_eq!(parsed.protocol_version, 1);
    assert_eq!(parsed.web_socket_port, 4001);
}

#[test]
fn discovery_parse_rejects_bad_documents() {
    // not JSON at all
    assert!(parse_activate_editing(b"nonsense").is_none());
    // missing member
    assert!(parse_activate_editing(br#"{"ProtocolVersion":1}"#).is_none());
    // doubled member
    assert!(parse_activate_editing(
        br#"{"ProtocolVersion":1,"ProtocolVersion":1,"WebSocketPort":4001}"#
    )
    .is_none());
    // wrong shape
    assert!(parse_activate_editing(br#"{"ProtocolVersion":"1","WebSocketPort":4001}"#).is_none());
    // out of range for the field
    assert!(parse_activate_editing(br#"{"ProtocolVersion":4294967296,"WebSocketPort":1}"#)
        .is_none());
    // leading zero is not a JSON number
    assert!(parse_activate_editing(br#"{"ProtocolVersion":01,"WebSocketPort":4001}"#).is_none());
    // trailing garbage
    assert!(parse_activate_editing(br#"{"ProtocolVersion":1,"WebSocketPort":4001}x"#).is_none());
    // empty object
    assert!(parse_activate_editing(b"{}").is_none());
    // empty input
    assert!(parse_activate_editing(b"").is_none());
}

#[test]
fn discovery_parse_agrees_with_general_json_writer() {
    let mut m = serde_json::Map::new();
    m.insert("ProtocolVersion".to_string(), serde_json::Value::from(1u32));
    m.insert("WebSocketPort".to_string(), serde_json::Value::from(4001u32));
    m.insert("extra".to_string(), serde_json::Value::Null);
    let doc = serde_json::Value::Object(m).to_string();
    let parsed = parse_activate_editing(doc.as_bytes()).expect("parses");
    assert_eq!(parsed.protocol_version, 1);
    assert_eq!(parsed.web_socket_port, 4001);
}

#[test]
fn editor_change_exact_frame() {
    let c = EditorChange {
        text: "world".to_string(),
        selections: vec![Selection { start: 0, end: 5 }],
    };
    let frame = encode_editor_change(&c);
    assert_eq!(
        String::from_utf8(frame).unwrap(),
        r#"{"text":"world","selections":[{"start":0,"end":5}]}"#
    );
}

#[test]
fn editor_change_empty_selections() {
    let c = EditorChange { text: String::new(), selections: vec![] };
    let frame = encode_editor_change(&c);
    assert_eq!(String::from_utf8(frame).unwrap(), r#"{"text":"","selections":[]}"#);
}

#[test]
fn editor_change_escapes_like_a_json_writer() {
    let text = "a\"b\\c\nd\te\ru\x08v\x0cw\x1fx ünicode 😀";
    let c = EditorChange {
        text: text.to_string(),
        selections: vec![Selection { start: 2, end: 17 }, Selection { start: 0, end: 1 }],
    };
    let frame = encode_editor_change(&c);
    let v: serde_json::Value =
        serde_json::from_str(std::str::from_utf8(&frame).unwrap()).expect("frame is valid JSON");
    assert_eq!(v["text"], serde_json::Value::String(text.to_string()));
    assert_eq!(v["selections"][0]["start"], serde_json::Value::from(2u64));
    assert_eq!(v["selections"][0]["end"], serde_json::Value::from(17u64));
    assert_eq!(v["selections"][1]["start"], serde_json::Value::from(0u64));
    assert_eq!(v["selections"][1]["end"], serde_json::Value::from(1u64));
}

#[test]
fn browser_change_parses_the_protocol_frame() {
    let c = bc(VALID).expect("parses");
    assert_eq!(c.title, "t");
    assert_eq!(c.url, "u");
    assert_eq!(c.syntax, "s");
    assert_eq!(c.text, "hello");
    assert_eq!(c.selections.len(), 1);
    assert_eq!(c.selections[0], Selection { start: 0, end: 5 });
}

#[test]
fn browser_change_accepts_json_liberties() {
    // whitespace, member order, several selections, unknown members of every
    // shape
    let doc = r#"
        {
          "selections" : [ { "end" : 5 , "start" : 0 } , {"start":7,"end":7} ],
          "extra" : { "nested" : [ 1 , -2.5e3 , true , false , null , "s" ] },
          "text" : "hello",
          "url" : "u",
          "syntax" : "s",
          "title" : "t"
        }
    "#;
    let c = bc(doc).expect("parses");
    assert_eq!(c.text, "hello");
    assert_eq!(c.selections.len(), 2);
    assert_eq!(c.selections[0], Selection { start: 0, end: 5 });
    assert_eq!(c.selections[1], Selection { start: 7, end: 7 });
}

#[test]
fn browser_change_unescapes_strings() {
    let doc = r#"{"title":"\"\\\/\b\f\n\r\t","url":"Aé","syntax":"😀","text":"x","selections":[]}"#;
    let c = bc(doc).expect("parses");
    assert_eq!(c.title, "\"\\/\x08\x0c\n\r\t");
    assert_eq!(c.url, "Aé");
    assert_eq!(c.syntax, "😀");
    assert_eq!(c.selections.len(), 0);
}

#[test]
fn browser_change_rejects_malformed_frames() {
    // not JSON
    assert!(bc("hello").is_none());
    // missing required member
    assert!(bc(r#"{"title":"t","url":"u","text":"x","selections":[]}"#).is_none());
    // doubled member
    assert!(bc(
        r#"{"title":"t","title":"t","url":"u","syntax":"s","text":"x","selections":[]}"#
    )
    .is_none());
    // wrong member shape
    assert!(bc(r#"{"title":1,"url":"u","syntax":"s","text":"x","selections":[]}"#).is_none());
    assert!(bc(r#"{"title":"t","url":"u","syntax":"s","text":"x","selections":{}}"#).is_none());
    assert!(bc(
        r#"{"title":"t","url":"u","syntax":"s","text":"x","selections":[{"start":"0","end":5}]}"#
    )
    .is_none());
    // selection member missing
    assert!(bc(
        r#"{"title":"t","url":"u","syntax":"s","text":"x","selections":[{"start":0}]}"#
    )
    .is_none());
    // negative offset
    assert!(bc(
        r#"{"title":"t","url":"u","syntax":"s","text":"x","selections":[{"start":-1,"end":5}]}"#
    )
    .is_none());
    // lone surrogate escape
    assert!(bc(r#"{"title":"\uD800","url":"u","syntax":"s","text":"x","selections":[]}"#)
        .is_none());
    // unescaped control character
    assert!(bc("{\"title\":\"a\x01b\",\"url\":\"u\",\"syntax\":\"s\",\"text\":\"x\",\"selections\":[]}").is_none());
    // unterminated string
    assert!(bc(r#"{"title":"t","url":"u","syntax":"s","text":"x","selections":[]"#).is_none());
    // trailing garbage
    assert!(bc(&format!("{} extra", VALID)).is_none());
}

#[test]
fn browser_change_rejects_invalid_utf8_in_a_string() {
    // a well-shaped frame whose title holds a lone 0xFF byte
    let mut frame = Vec::new();
    frame.extend_from_slice(br#"{"title":""#);
    frame.push(0xFF);
    frame.extend_from_slice(br#"","url":"u","syntax":"s","text":"x","selections":[]}"#);
    assert!(parse_browser_change(&frame).is_none());
    // a continuation byte without its leading byte
    let mut frame = Vec::new();
    frame.extend_from_slice(br#"{"title":""#);
    frame.push(0x80);
    frame.extend_from_slice(br#"","url":"u","syntax":"s","text":"x","selections":[]}"#);
    assert!(parse_browser_change(&frame).is_none());
}

#[test]
fn browser_change_offset_bounds() {
    // the largest offset a 64-bit build accepts
    let doc = format!(
        r#"{{"title":"t","url":"u","syntax":"s","text":"x","selections":[{{"start":0,"end":{}}}]}}"#,
        u64::MAX
    );
    if usize::MAX as u64 == u64::MAX {
        let c = bc(&doc).expect("parses on a 64-bit build");
        assert_eq!(c.selections[0].end, usize::MAX);
    }
    // one past u64 always fails
    let doc = r#"{"title":"t","url":"u","syntax":"s","text":"x","selections":[{"start":0,"end":18446744073709551616}]}"#;
    assert!(bc(doc).is_none());
}

#[test]
fn browser_change_agrees_with_general_json_writer() {
    let mut sel = serde_json::Map::new();
    sel.insert("start".to_string(), serde_json::Value::from(3u64));
    sel.insert("end".to_string(), serde_json::Value::from(9u64));
    let mut m = serde_json::Map::new();
    m.insert("title".to_string(), serde_json::Value::String("Tïtle \"q\"".to_string()));
    m.insert("url".to_string(), serde_json::Value::String("https://x".to_string()));
    m.insert("syntax".to_string(), serde_json::Value::String(String::new()));
    m.insert("text".to_string(), serde_json::Value::String("line1\nline2".to_string()));
    m.insert(
        "selections".to_string(),
        serde_json::Value::Array(vec![serde_json::Value::Object(sel)]),
    );
    let doc = serde_json::Value::Object(m).to_string();
    let c = bc(&doc).expect("parses");
    assert_eq!(c.title, "Tïtle \"q\"");
    assert_eq!(c.url, "https://x");
    assert_eq!(c.syntax, "");
    assert_eq!(c.text, "line1\nline2");
    assert_eq!(c.selections, vec![Selection { start: 3, end: 9 }]);
}
