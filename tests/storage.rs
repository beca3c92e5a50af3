use rustr_core::storage::{stored_event_from_json, MockStorage};
use rustr_core::types::{OutboxItem, OutboxStatus, StorageFilter, StorageOp, StoredEvent};

fn ev(id: &str, kind: u16, author: &str, at: i64) -> StoredEvent {
    StoredEvent {
        id: id.to_string(),
        kind,
        pubkey: author.to_string(),
        created_at: at,
        content: format!("c{}", id),
        tags: vec![],
        sig: String::new(),
        relay_hint: None,
        inserted_at: 0,
    }
}

#[test]
fn saved_event_reads_back_byte_equal() {
    let mut s = MockStorage::new();
    let json = r#"{"content":"héllo \"x\"","id":"e1"}"#;
    s.save_event("e1", json, 5).unwrap();
    assert_eq!(s.get_event_json("e1").unwrap(), json);
    let stored = s.get_events(&StorageFilter::any());
    assert_eq!(stored.len(), 1);
    assert_eq!(stored[0].content, "héllo \"x\"");
    assert_eq!(stored[0].inserted_at, 5);
    s.save_event("e1", "{}", 6).unwrap();
    assert_eq!(s.get_event_json("e1").unwrap(), "{}");
    assert_eq!(s.get_events(&StorageFilter::any()).len(), 1);
    assert!(s.get_event_json("e2").is_none());
    assert!(s.save_event("e3", "not json", 7).unwrap_err().is_parse_error());
    assert!(s.get_event_json("e3").is_none());
}

#[test]
fn get_events_filters_sorts_and_limits() {
    let mut s = MockStorage::new();
    s.insert_event(&ev("a", 1, "x", 10));
    s.insert_event(&ev("b", 42, "y", 30));
    s.insert_event(&ev("c", 1, "y", 20));
    s.insert_event(&ev("d", 1, "x", 30));
    let all = s.get_events(&StorageFilter::any());
    assert_eq!(all.iter().map(|e| e.id.as_str()).collect::<Vec<_>>(), vec!["b", "d", "c", "a"]);
    let f = StorageFilter { kinds: Some(vec![1]), authors: None, since: Some(15), until: None, limit: None };
    assert_eq!(s.get_events(&f).iter().map(|e| e.id.as_str()).collect::<Vec<_>>(), vec!["d", "c"]);
    let f = StorageFilter { kinds: None, authors: Some(vec!["x".to_string()]), since: None, until: Some(29), limit: None };
    assert_eq!(s.get_events(&f).iter().map(|e| e.id.as_str()).collect::<Vec<_>>(), vec!["a"]);
    let f = StorageFilter { limit: Some(2), ..StorageFilter::any() };
    assert_eq!(s.get_events(&f).iter().map(|e| e.id.as_str()).collect::<Vec<_>>(), vec!["b", "d"]);
}

#[test]
fn dm_threads_upsert_and_order() {
    let mut s = MockStorage::new();
    s.upsert_dm_thread("peer_a", 10);
    s.upsert_dm_thread("peer_b", 20);
    s.upsert_dm_thread("peer_a", 30);
    let t = s.get_dm_threads();
    assert_eq!(t.len(), 2);
    assert_eq!(t[0].peer, "peer_a");
    assert_eq!(t[0].last_msg_at, 30);
    assert_eq!(t[0].last_seen, 0);
    assert_eq!(t[1].peer, "peer_b");
}

#[test]
fn last_seen_cursor() {
    let mut s = MockStorage::new();
    assert_eq!(s.get_last_seen("home"), 0);
    s.set_last_seen("home", 5);
    s.set_last_seen("home", 9);
    s.set_last_seen("dm", 1);
    assert_eq!(s.get_last_seen("home"), 9);
    assert_eq!(s.get_last_seen("dm"), 1);
}

#[test]
fn outbox_table() {
    let mut s = MockStorage::new();
    let it = |r: &str, st: OutboxStatus| OutboxItem {
        req_id: r.to_string(),
        event_json: "{}".to_string(),
        status: st,
        last_try_at: 0,
        retry_count: 0,
        error: None,
    };
    assert_eq!(s.enqueue_outbox(it("a", OutboxStatus::Queued)), "a");
    s.enqueue_outbox(it("b", OutboxStatus::Sent));
    s.enqueue_outbox(it("c", OutboxStatus::Error));
    assert_eq!(s.get_pending_outbox().len(), 2);
    s.apply(StorageOp::SetOutboxStatus { req_id: "a".to_string(), status: OutboxStatus::Error, error: Some("x".to_string()) }, 0).unwrap();
    let p = s.get_pending_outbox();
    assert_eq!(p.len(), 1);
    assert_eq!(p[0].req_id, "b");
    s.apply(StorageOp::DeleteOutboxItem { req_id: "b".to_string() }, 0).unwrap();
    assert!(s.get_pending_outbox().is_empty());
}

#[test]
fn keypair_singleton() {
    let mut s = MockStorage::new();
    assert!(s.get_keypair().is_none());
    s.save_keypair(&[1, 2, 3]);
    s.save_keypair(&[4]);
    assert_eq!(s.get_keypair().unwrap(), vec![4]);
}

#[test]
fn stored_event_decoding() {
    let e = stored_event_from_json(
        "fallback",
        r#"{"kind":42,"pubkey":"pk","created_at":9,"content":"c","tags":[["e","x",3],"bad",["p"]],"sig":"s"}"#,
        11,
    )
    .unwrap();
    assert_eq!(e.id, "fallback");
    assert_eq!(e.kind, 42);
    assert_eq!(e.tags, vec![vec!["e".to_string(), "x".to_string()], vec!["p".to_string()]]);
    assert_eq!(e.sig, "s");
    assert_eq!(e.inserted_at, 11);
    assert!(e.relay_hint.is_none());
    assert!(stored_event_from_json("x", "[1", 0).unwrap_err().is_parse_error());
    assert!(stored_event_from_json("x", r#"{"kind":65578}"#, 0).unwrap_err().is_parse_error());
}

#[test]
fn insert_event_replaces_same_id() {
    let mut s = MockStorage::new();
    s.insert_event(&ev("a", 1, "x", 10));
    s.insert_event(&ev("a", 2, "x", 20));
    let all = s.get_events(&StorageFilter::any());
    assert_eq!(all.len(), 1);
    assert_eq!(all[0].kind, 2);
}
