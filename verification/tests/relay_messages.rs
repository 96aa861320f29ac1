use sample_range::relay::{
    read_relay_message, relay_message_of, relay_shot, relay_step, shot_timestamp, RelayAction, RelayEvent, RelayMessage,
    RELAY_RETRY_SECONDS,
};

fn msg(kind: Option<&str>, inner: Option<&str>, has_shot: bool, ts: Option<&str>) -> RelayMessage {
    RelayMessage {
        event_kind: kind.map(|s| s.to_string()),
        inner_type: inner.map(|s| s.to_string()),
        has_shot,
        timestamp: ts.map(|s| s.to_string()),
    }
}

#[test]
fn shot_result_is_accepted() {
    let m = msg(Some("launch_monitor"), Some("shot_result"), true, Some("12:00"));
    assert_eq!(shot_timestamp(&m), Some("12:00".to_string()));
    let m = msg(Some("launch_monitor"), Some("shot_result"), true, None);
    assert_eq!(shot_timestamp(&m), Some(String::new()));
}

#[test]
fn other_messages_are_ignored() {
    assert_eq!(shot_timestamp(&msg(Some("actor_status"), Some("shot_result"), true, None)), None);
    assert_eq!(shot_timestamp(&msg(Some("launch_monitor"), Some("ready"), true, None)), None);
    assert_eq!(shot_timestamp(&msg(Some("launch_monitor"), Some("shot_result"), false, None)), None);
    assert_eq!(shot_timestamp(&msg(None, None, true, None)), None);
}

#[test]
fn read_relay_message_fields() {
    let text = r#"{"timestamp":"12:00","event":{"kind":"launch_monitor","event":{"type":"shot_result","shot":{"ball":{}}}}}"#;
    let (m, shot) = read_relay_message(text).unwrap();
    assert_eq!(m.event_kind.as_deref(), Some("launch_monitor"));
    assert_eq!(m.inner_type.as_deref(), Some("shot_result"));
    assert!(m.has_shot);
    assert_eq!(m.timestamp.as_deref(), Some("12:00"));
    assert!(shot.unwrap().get("ball").is_some());
    assert!(read_relay_message("not json").is_none());
    let (m, shot) = read_relay_message(r#"{"event":{"kind":7}}"#).unwrap();
    assert_eq!(m.event_kind, None);
    assert!(!m.has_shot && shot.is_none());
}

#[test]
fn relay_shot_from_text() {
    let text = r#"{"timestamp":"t1","event":{"kind":"launch_monitor","event":{"type":"shot_result","shot":{"x":1}}}}"#;
    let (_, ts, shot) = relay_shot(text).unwrap();
    assert_eq!(ts, "t1");
    assert_eq!(shot.get("x").and_then(|v| v.as_i64()), Some(1));
    let status = r#"{"event":{"kind":"actor_status","event":{"type":"shot_result","shot":{}}}}"#;
    assert!(relay_shot(status).is_none());
    let no_shot = r#"{"event":{"kind":"launch_monitor","event":{"type":"shot_result"}}}"#;
    assert!(relay_shot(no_shot).is_none());
    assert!(relay_shot("{").is_none());
    let no_ts = r#"{"event":{"kind":"launch_monitor","event":{"type":"shot_result","shot":{}}}}"#;
    assert_eq!(relay_shot(no_ts).unwrap().1, "");
}

#[test]
fn relay_reconnects_after_failures() {
    let wait = RelayAction::WaitThenConnect { seconds: RELAY_RETRY_SECONDS };
    assert_eq!(RELAY_RETRY_SECONDS, 2);
    for e in [RelayEvent::ConnectFailed, RelayEvent::HandshakeFailed, RelayEvent::Closed, RelayEvent::ReadFailed] {
        assert_eq!(relay_step(e), wait);
    }
    assert_eq!(relay_step(RelayEvent::Connected), RelayAction::SendHandshake);
    for e in [RelayEvent::HandshakeSent, RelayEvent::TextFrame, RelayEvent::OtherFrame] {
        assert_eq!(relay_step(e), RelayAction::ReadNext);
    }
    assert_eq!(relay_step(RelayEvent::ReceiverGone), RelayAction::Stop);
}

#[test]
fn relay_message_of_reads_the_document() {
    let v: serde_json::Value = serde_json::from_str(
        r#"{"timestamp":5,"event":{"kind":"launch_monitor","event":{"type":"ready"}}}"#,
    )
    .unwrap();
    let (m, shot) = relay_message_of(&v);
    assert_eq!(m.event_kind.as_deref(), Some("launch_monitor"));
    assert_eq!(m.inner_type.as_deref(), Some("ready"));
    assert!(!m.has_shot && shot.is_none());
    // A timestamp that is not a string is not read.
    assert_eq!(m.timestamp, None);

    // An event that is not an object has no members.
    let v: serde_json::Value = serde_json::from_str(r#"{"event":"launch_monitor","timestamp":"t"}"#).unwrap();
    let (m, shot) = relay_message_of(&v);
    assert_eq!(m.event_kind, None);
    assert_eq!(m.inner_type, None);
    assert!(!m.has_shot && shot.is_none());
    assert_eq!(m.timestamp.as_deref(), Some("t"));

    // The shot handed back is the document's own `event.event.shot`.
    let v: serde_json::Value = serde_json::from_str(
        r#"{"event":{"kind":"x","event":{"type":"y","shot":{"ball":{"carry_distance":"98.8m"}}}}}"#,
    )
    .unwrap();
    let (m, shot) = relay_message_of(&v);
    assert!(m.has_shot);
    assert_eq!(shot.as_ref(), v.get("event").and_then(|e| e.get("event")).and_then(|i| i.get("shot")));
}
