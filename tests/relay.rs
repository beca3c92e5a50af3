use rustr_core::relay::{ConnectionState, ExponentialBackoff, Frame, RelayConnection, RelayMessage};

#[test]
fn relay_test_exponential_backoff() {
    let mut backoff = ExponentialBackoff::new();
    assert_eq!(backoff.next_delay(), 1);
    assert_eq!(backoff.next_delay(), 2);
    assert_eq!(backoff.next_delay(), 4);
    assert_eq!(backoff.next_delay(), 8);

    backoff.reset();
    assert_eq!(backoff.next_delay(), 1);
}

#[test]
fn relay_test_relay_message_parse() {
    let json = r#"["EVENT","sub1",{"id":"abc","kind":1}]"#;
    let msg = RelayMessage::parse(json).unwrap();
    match msg {
        RelayMessage::Event { sub_id, .. } => assert_eq!(sub_id, "sub1"),
        _ => panic!("Expected EVENT message"),
    }

    let json = r#"["EOSE","sub1"]"#;
    let msg = RelayMessage::parse(json).unwrap();
    match msg {
        RelayMessage::Eose { sub_id } => assert_eq!(sub_id, "sub1"),
        _ => panic!("Expected EOSE message"),
    }

    let json = r#"["OK","event123",true,""]"#;
    let msg = RelayMessage::parse(json).unwrap();
    match msg {
        RelayMessage::Ack { event_id, accepted, .. } => {
            assert_eq!(event_id, "event123");
            assert!(accepted);
        }
        _ => panic!("Expected OK message"),
    }
}

#[test]
fn backoff_caps_at_sixty_seconds() {
    let mut backoff = ExponentialBackoff::new();
    let delays: Vec<u32> = (0..9).map(|_| backoff.next_delay()).collect();
    assert_eq!(delays, vec![1, 2, 4, 8, 16, 32, 60, 60, 60]);
}

#[test]
fn backoff_reset_after_advance_sequence() {
    let mut b = ExponentialBackoff::new();
    let first = b.next_delay();
    let second = b.next_delay();
    let third = b.next_delay();
    b.reset();
    let after_reset = b.next_delay();
    assert_eq!([first, second, third, after_reset], [1, 2, 4, 1]);
}

#[test]
fn parse_event_keeps_compact_object_text() {
    let msg = RelayMessage::parse(r#"[ "EVENT" , "s" , { "id" : "x" } ]"#).unwrap();
    match msg {
        RelayMessage::Event { sub_id, event_json } => {
            assert_eq!(sub_id, "s");
            assert_eq!(event_json, r#"{"id":"x"}"#);
        }
        _ => panic!("Expected EVENT message"),
    }
}

#[test]
fn parse_ok_without_string_message_reads_empty() {
    match RelayMessage::parse(r#"["OK","e1",false,5]"#).unwrap() {
        RelayMessage::Ack { event_id, accepted, message } => {
            assert_eq!(event_id, "e1");
            assert!(!accepted);
            assert_eq!(message, "");
        }
        _ => panic!("Expected OK message"),
    }
    match RelayMessage::parse(r#"["OK","e2",true]"#).unwrap() {
        RelayMessage::Ack { event_id, accepted, message } => {
            assert_eq!(event_id, "e2");
            assert!(accepted);
            assert_eq!(message, "");
        }
        _ => panic!("Expected OK message"),
    }
    match RelayMessage::parse(r#"["OK","e1",false,"blocked"]"#).unwrap() {
        RelayMessage::Ack { message, .. } => assert_eq!(message, "blocked"),
        _ => panic!("Expected OK message"),
    }
}

#[test]
fn parse_notice() {
    match RelayMessage::parse(r#"["NOTICE","hello"]"#).unwrap() {
        RelayMessage::Notice { message } => assert_eq!(message, "hello"),
        _ => panic!("Expected NOTICE message"),
    }
}

#[test]
fn parse_rejects_malformed_frames() {
    for text in [
        "not json",
        "{}",
        "[]",
        "[1,2]",
        r#"["AUTH","x"]"#,
        r#"["EVENT","s"]"#,
        r#"["EVENT",1,{}]"#,
        r#"["EOSE"]"#,
        r#"["OK","e","yes",""]"#,
        r#"["NOTICE"]"#,
    ] {
        let r = RelayMessage::parse(text);
        assert!(r.is_err(), "{} should be rejected", text);
        assert!(r.unwrap_err().is_parse_error());
    }
}

#[test]
fn frame_texts() {
    let req = Frame::Req { sub_id: "ch:abc".to_string(), filter_json: r#"{"kinds":[42]}"#.to_string() };
    assert_eq!(req.to_text(), r#"["REQ","ch:abc",{"kinds":[42]}]"#);
    let ev = Frame::Event { event_json: r#"{"id":"x"}"#.to_string() };
    assert_eq!(ev.to_text(), r#"["EVENT",{"id":"x"}]"#);
    let close = Frame::Close { sub_id: "a\"b".to_string() };
    assert_eq!(close.to_text(), r#"["CLOSE","a\"b"]"#);
    let ctl = Frame::Close { sub_id: "x\n\u{1}\u{7f}é\\".to_string() };
    assert_eq!(ctl.to_text(), "[\"CLOSE\",\"x\\n\\u0001\u{7f}é\\\\\"]");
}

#[test]
fn connect_is_noop_when_connecting_or_connected() {
    let mut r = RelayConnection::new("wss://relay.example".to_string());
    assert_eq!(r.state(), ConnectionState::Disconnected);
    assert!(r.connect(100));
    assert_eq!(r.state(), ConnectionState::Connecting);
    assert!(!r.connect(200));
    assert_eq!(r.state(), ConnectionState::Connecting);
    assert!(!r.needs_reconnect(100));
    r.on_open();
    assert!(r.is_connected());
    assert!(!r.connect(300));
    assert_eq!(r.state(), ConnectionState::Connected);
}

#[test]
fn reconnect_schedule_after_close() {
    let mut r = RelayConnection::new("wss://relay.example".to_string());
    assert!(r.connect(1000));
    r.on_open();
    r.on_close();
    assert_eq!(r.state(), ConnectionState::Disconnected);
    // Within the initial delay of one second no reconnect is due.
    assert!(!r.needs_reconnect(1000));
    assert!(r.needs_reconnect(1001));
    // A failed attempt doubles the threshold.
    assert!(r.reconnect_if_needed(1001));
    r.on_error("refused");
    assert_eq!(r.current_backoff(), 2);
    assert!(!r.needs_reconnect(1002));
    assert!(r.needs_reconnect(1003));
    // A successful open resets it.
    assert!(r.reconnect_if_needed(1003));
    r.on_open();
    assert_eq!(r.current_backoff(), 1);
    assert!(!r.needs_reconnect(5000));
}

#[test]
fn send_only_while_connected() {
    let mut r = RelayConnection::new("wss://relay.example".to_string());
    let f = Frame::Event { event_json: "{}".to_string() };
    assert!(r.send(&f).is_none());
    r.connect(1);
    assert!(r.send(&f).is_none());
    r.on_open();
    assert_eq!(r.send(&f).unwrap(), r#"["EVENT",{}]"#);
}

#[test]
fn messages_queue_and_drain_in_order() {
    let mut r = RelayConnection::new("wss://relay.example".to_string());
    r.on_message(r#"["EOSE","a"]"#);
    r.on_message("garbage");
    r.on_message(r#"["NOTICE","n"]"#);
    assert_eq!(r.message_count(), 2);
    let msgs = r.drain_messages();
    assert_eq!(msgs.len(), 2);
    assert!(matches!(&msgs[0], RelayMessage::Eose { sub_id } if sub_id == "a"));
    assert!(matches!(&msgs[1], RelayMessage::Notice { message } if message == "n"));
    assert_eq!(r.message_count(), 0);
}

#[test]
fn subscriptions_and_eose_marks() {
    let mut r = RelayConnection::new("wss://relay.example".to_string());
    r.add_subscription("s".to_string(), "{}".to_string());
    assert!(!r.has_eose("s"));
    r.mark_eose("s");
    assert!(r.has_eose("s"));
    assert!(!r.has_eose("t"));
}
