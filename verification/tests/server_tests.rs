use ghost_text::server::browser_frame_text;
use ghost_text::server::selections_from_pairs;
use ghost_text::data::Selection;
use ghost_text::Server;

const VALID: &str =
    r#"{"title":"t","url":"u","syntax":"s","text":"hello","selections":[{"start":0,"end":5}]}"#;

#[test]
fn stop_twice_is_harmless() {
    let mut s = Server::new();
    s.start();
    s.stop();
    let after_first = s;
    s.stop();
    assert_eq!(s, after_first);
    assert!(!s.running);
    assert!(!s.shutdown_armed);
}

#[test]
fn stop_before_start_is_harmless() {
    let mut s = Server::new();
    s.stop();
    s.stop();
    assert!(!s.running);
}

#[test]
fn update_before_start_is_dropped() {
    let s = Server::new();
    assert!(s.update("x".to_string(), vec![vec![0, 1]]).is_none());
}

#[test]
fn update_without_a_session_produces_no_frame() {
    let mut s = Server::new();
    s.start();
    let change = s.update("x".to_string(), vec![vec![0, 1]]).expect("channel is open");
    // no session: the accept loop drops the change
    assert!(s.on_editor_change(&change).is_none());
}

#[test]
fn update_with_a_session_reaches_the_browser() {
    let mut s = Server::new();
    s.start();
    s.on_upgrade();
    let change = s.update("world".to_string(), vec![vec![0, 5]]).expect("channel is open");
    let frame = s.on_editor_change(&change).expect("session is open");
    assert_eq!(
        String::from_utf8(frame).unwrap(),
        r#"{"text":"world","selections":[{"start":0,"end":5}]}"#
    );
}

#[test]
fn updates_are_relayed_in_order_without_drops() {
    let mut s = Server::new();
    s.start();
    s.on_upgrade();
    let texts = ["a", "b", "c", "b"];
    let mut frames = Vec::new();
    for t in texts {
        let change = s.update(t.to_string(), vec![vec![0, 1]]).expect("channel is open");
        frames.push(s.on_editor_change(&change).expect("session is open"));
    }
    assert_eq!(frames.len(), texts.len());
    for (frame, t) in frames.iter().zip(texts.iter()) {
        assert_eq!(
            String::from_utf8(frame.clone()).unwrap(),
            format!(r#"{{"text":"{}","selections":[{{"start":0,"end":1}}]}}"#, t)
        );
    }
}

#[test]
fn session_end_silences_updates_until_the_next_upgrade() {
    let mut s = Server::new();
    s.start();
    s.on_upgrade();
    s.on_session_end();
    let change = s.update("x".to_string(), vec![]).expect("channel is open");
    assert!(s.on_editor_change(&change).is_none());
    s.on_upgrade();
    assert!(s.on_editor_change(&change).is_some());
}

#[test]
fn wrong_arity_selection_is_rejected_not_truncated() {
    assert!(selections_from_pairs(&vec![vec![1, 2, 3]]).is_none());
    assert!(selections_from_pairs(&vec![vec![1]]).is_none());
    assert!(selections_from_pairs(&vec![vec![0, 5], vec![]]).is_none());
    let ok = selections_from_pairs(&vec![vec![0, 5], vec![7, 7]]).expect("pairs");
    assert_eq!(ok, vec![Selection { start: 0, end: 5 }, Selection { start: 7, end: 7 }]);
}

#[test]
fn malformed_frame_keeps_the_session_alive() {
    let mut s = Server::new();
    s.start();
    s.on_upgrade();
    let mut delivered = Vec::new();
    for frame in ["{ not json", VALID] {
        match browser_frame_text(frame.as_bytes()) {
            // a malformed frame is logged and dropped; the session stays
            Option::None => assert!(s.session_open),
            Option::Some(text) => delivered.push(text),
        }
    }
    assert!(s.session_open);
    assert_eq!(delivered, vec!["hello".to_string()]);
}

#[test]
fn browser_frame_text_hands_the_text_to_the_callback() {
    assert_eq!(browser_frame_text(VALID.as_bytes()), Some("hello".to_string()));
    assert!(browser_frame_text(b"[1,2,3]").is_none());
}
