use rustr_core::engine::CoreHandle;
use rustr_core::relay::ConnectionState;
use rustr_core::signer::InternalSigner;
use rustr_core::storage::MockStorage;
use rustr_core::types::{OutboxItem, OutboxStatus, StorageOp};

fn connected_core() -> CoreHandle {
    let mut core = CoreHandle::init(vec!["wss://relay.example".to_string()]);
    core.connect_all(1000);
    assert_eq!(core.take_connects(), vec![0]);
    core.on_socket_open(0);
    core
}

fn with_signer(mut core: CoreHandle) -> CoreHandle {
    core.set_signer(InternalSigner::from_secret_key(&[9u8; 32]).unwrap());
    core
}

#[test]
fn public_message_happy_path() {
    let mut storage = MockStorage::new();
    let mut core = with_signer(connected_core());
    let id = core.send_public("ch_abc", "hi", 1000, "req_1".to_string()).unwrap();
    assert_eq!(core.outbox().len(), 1);
    for op in core.take_storage_writes() {
        storage.apply(op, 0).unwrap();
    }
    assert_eq!(storage.get_pending_outbox().len(), 1);

    core.tick(1001);
    let sends = core.take_sends();
    assert_eq!(sends.len(), 1);
    assert_eq!(sends[0].0, 0);
    let frame = &sends[0].1;
    assert!(frame.starts_with(r#"["EVENT",{"content":"hi","created_at":1000,"id":""#));
    let event_json = &frame[r#"["EVENT","#.len()..frame.len() - 1];
    let ev = nostr::event::Event::from_json(event_json).unwrap();
    assert!(ev.verify().is_ok());
    assert_eq!(ev.id.to_hex(), id);
    assert_eq!(ev.kind.as_u16(), 42);
    assert_eq!(ev.content, "hi");
    assert!(frame.contains(r#""tags":[["e","ch_abc"]]"#));

    core.on_socket_message(0, &format!(r#"["OK","{}",true,""]"#, id));
    core.tick(1002);
    assert!(core.outbox().is_empty());
    let writes = core.take_storage_writes();
    assert!(matches!(&writes[0], StorageOp::SetOutboxStatus { req_id, status: OutboxStatus::Acknowledged, .. } if req_id == "req_1"));
    assert!(matches!(&writes[1], StorageOp::DeleteOutboxItem { req_id } if req_id == "req_1"));
    for op in writes {
        storage.apply(op, 0).unwrap();
    }
    assert!(storage.get_pending_outbox().is_empty());
}

#[test]
fn channel_creation_and_echo() {
    let mut core = with_signer(connected_core());
    let id = core.create_channel("room", "desc", "", 2000, "req_c".to_string()).unwrap();
    core.tick(2001);
    let sends = core.take_sends();
    assert_eq!(sends.len(), 1);
    let frame = &sends[0].1;
    let event_json = frame[r#"["EVENT","#.len()..frame.len() - 1].to_string();
    let ev = nostr::event::Event::from_json(&event_json).unwrap();
    assert_eq!(ev.kind.as_u16(), 40);
    assert_eq!(ev.content, r#"{"about":"desc","name":"room","picture":""}"#);

    // The relay echoes it on an open subscription.
    core.on_socket_message(0, &format!(r#"["EVENT","ch:x",{}]"#, event_json));
    core.tick(2002);
    let rows = core.poll_events(10);
    assert_eq!(rows.len(), 1);
    assert_eq!(rows[0].id, id);
    assert_eq!(rows[0].kind, 40);
    assert_eq!(rows[0].created_at, 2000);
    assert!(rows[0].image_url.is_none());
    let writes = core.take_storage_writes();
    assert!(writes.iter().any(|w| matches!(w, StorageOp::SaveEvent { event_id, event_json: j } if *event_id == id && *j == event_json)));
    assert!(core.poll_events(10).is_empty());
}

#[test]
fn eose_widening_through_the_loop() {
    let mut core = connected_core();
    core.open_channel("ch_x", 1000);
    let sends = core.take_sends();
    assert_eq!(sends, vec![(0, r##"["REQ","ch:ch_x",{"#e":["ch_x"],"kinds":[42],"since":400}]"##.to_string())]);
    let expected = [-3200i64, -89600, -694400, -3286400];
    for since in expected {
        core.on_socket_message(0, r#"["EOSE","ch:ch_x"]"#);
        core.tick(1100);
        let sends = core.take_sends();
        assert_eq!(sends.len(), 1);
        assert_eq!(sends[0].1, format!(r##"["REQ","ch:ch_x",{{"#e":["ch_x"],"kinds":[42],"since":{}}}]"##, since));
    }
    core.on_socket_message(0, r#"["EOSE","ch:ch_x"]"#);
    core.tick(1100);
    assert!(core.take_sends().is_empty());
}

#[test]
fn reconnect_through_the_loop() {
    let mut core = connected_core();
    core.on_socket_close(0);
    assert_eq!(core.relays()[0].state(), ConnectionState::Disconnected);
    core.tick(1000);
    assert!(core.take_connects().is_empty());
    core.tick(1001);
    assert_eq!(core.take_connects(), vec![0]);
    assert_eq!(core.relays()[0].state(), ConnectionState::Connecting);
    // The attempt fails: the threshold becomes two seconds.
    core.on_socket_close(0);
    core.tick(1002);
    assert!(core.take_connects().is_empty());
    core.tick(1003);
    assert_eq!(core.take_connects(), vec![0]);
    core.on_socket_open(0);
    assert_eq!(core.relays()[0].current_backoff(), 1);
}

#[test]
fn ok_rejection_marks_error() {
    let mut core = with_signer(connected_core());
    let mut storage = MockStorage::new();
    let unsigned = CoreHandle::public_message_event("ch", "x", 10);
    assert_eq!(unsigned.kind, 42);
    let note = rustr_core::signer::UnsignedEvent { kind: 1, ..unsigned };
    let signed = InternalSigner::from_secret_key(&[9u8; 32]).unwrap().sign_event(note).unwrap();
    let id = core.enqueue_signed(&signed, "req_k".to_string(), 10).unwrap();
    core.tick(11);
    assert_eq!(core.take_sends().len(), 1);
    core.on_socket_message(0, &format!(r#"["OK","{}",false,"blocked"]"#, id));
    core.tick(12);
    let it = &core.outbox().items()[0];
    assert_eq!(it.status, OutboxStatus::Error);
    assert_eq!(it.error.as_deref(), Some("blocked"));
    for op in core.take_storage_writes() {
        storage.apply(op, 0).unwrap();
    }
    assert!(storage.get_pending_outbox().is_empty());
}

#[test]
fn crash_recovery_resends_pending() {
    let item = |req: &str, id: &str| OutboxItem {
        req_id: req.to_string(),
        event_json: format!(r#"{{"id":"{}"}}"#, id),
        status: OutboxStatus::Queued,
        last_try_at: 0,
        retry_count: 0,
        error: None,
    };
    let mut storage = MockStorage::new();
    storage.enqueue_outbox(item("r1", "e1"));
    storage.enqueue_outbox(item("r2", "e2"));
    let mut core = connected_core();
    core.load_pending(storage.get_pending_outbox());
    let ids: Vec<String> = core.outbox().items().iter().map(|i| i.req_id.clone()).collect();
    assert_eq!(ids, vec!["r1", "r2"]);
    core.tick(5);
    assert_eq!(core.take_sends(), vec![(0, r#"["EVENT",{"id":"e1"}]"#.to_string())]);
}

#[test]
fn duplicate_events_are_saved_once() {
    let mut core = CoreHandle::init(vec!["wss://a".to_string(), "wss://b".to_string()]);
    let ev = r#"["EVENT","s",{"id":"e1","kind":1,"content":"x","pubkey":"p","created_at":7}]"#;
    core.on_socket_message(0, ev);
    core.on_socket_message(1, ev);
    core.tick(1);
    let saves = core.take_storage_writes().into_iter().filter(|w| matches!(w, StorageOp::SaveEvent { .. })).count();
    assert_eq!(saves, 1);
    let rows = core.poll_events(5);
    assert_eq!(rows.len(), 1);
    assert_eq!(rows[0].pubkey, "p");
    assert_eq!(rows[0].content, "x");
    core.on_socket_message(1, ev);
    core.tick(2);
    assert!(core.take_storage_writes().is_empty());
}

#[test]
fn operations_without_signer_fail() {
    let mut core = connected_core();
    assert!(core.get_public_key().is_none());
    assert!(core.open_dm("peer", 1).is_err());
    assert!(core.send_public("c", "x", 1, "r".to_string()).is_err());
    assert!(core.send_dm("peer", "x", 1, "r".to_string()).is_err());
    assert!(core.create_channel("n", "a", "p", 1, "r".to_string()).is_err());
    assert!(core.outbox().is_empty());
}

#[test]
fn open_dm_uses_signer_key() {
    let mut core = with_signer(connected_core());
    let me = core.get_public_key().unwrap();
    core.open_dm("peer", 1000).unwrap();
    let sends = core.take_sends();
    assert_eq!(sends.len(), 2);
    assert_eq!(sends[0].1, format!(r##"["REQ","dm:peer",{{"#p":["peer"],"authors":["{}"],"kinds":[4],"since":400}}]"##, me));
    assert_eq!(sends[1].1, format!(r##"["REQ","dm:peer:r",{{"#p":["{}"],"authors":["peer"],"kinds":[4],"since":400}}]"##, me));
}

#[test]
fn send_dm_encrypts_for_peer() {
    let mut core = with_signer(connected_core());
    let peer = InternalSigner::from_secret_key(&[5u8; 32]).unwrap();
    let id = core.send_dm(&peer.get_public_key(), "psst", 100, "r".to_string()).unwrap();
    let json = core.outbox().items()[0].event_json.clone();
    let ev = nostr::event::Event::from_json(&json).unwrap();
    assert_eq!(ev.id.to_hex(), id);
    assert_eq!(ev.kind.as_u16(), 4);
    let me = core.get_public_key().unwrap();
    assert_eq!(peer.nip04_decrypt(&me, &ev.content).unwrap(), "psst");
}

#[test]
fn frames_not_sent_to_disconnected_relays() {
    let mut core = CoreHandle::init(vec!["wss://a".to_string(), "wss://b".to_string()]);
    core.connect_all(0);
    core.on_socket_open(1);
    core.open_channel("c", 1000);
    let sends = core.take_sends();
    assert_eq!(sends.len(), 1);
    assert_eq!(sends[0].0, 1);
    assert!(sends.iter().all(|(_, t)| t.starts_with(r#"["REQ","#) || t.starts_with(r#"["EVENT","#)));
}

#[test]
fn poll_events_respects_max() {
    let mut core = CoreHandle::init(vec!["wss://a".to_string()]);
    for i in 0..3 {
        core.on_socket_message(0, &format!(r#"["EVENT","s",{{"id":"e{}","kind":1,"pubkey":"p","created_at":5,"content":"c"}}]"#, i));
    }
    core.on_socket_message(0, r#"["EVENT","s",{"id":"bad","kind":70000,"pubkey":"p","created_at":5,"content":"c"}]"#);
    core.on_socket_message(0, r#"["EVENT","s",{"kind":1,"pubkey":"p","created_at":5,"content":"c"}]"#);
    core.on_socket_message(0, r#"["NOTICE","hello"]"#);
    core.tick(1);
    let first = core.poll_events(2);
    assert_eq!(first.iter().map(|r| r.id.as_str()).collect::<Vec<_>>(), vec!["e0", "e1"]);
    let rest = core.poll_events(10);
    assert_eq!(rest.len(), 1);
    assert_eq!(rest[0].id, "e2");
    assert_eq!(rest[0].kind, 1);
}
