use rustr_core::outbox::{OutboxQueue, MAX_RETRY_COUNT};
use rustr_core::relay::RelayConnection;
use rustr_core::types::{OutboxItem, OutboxStatus, StorageOp};

fn connected_relay() -> RelayConnection {
    let mut r = RelayConnection::new("wss://relay.example".to_string());
    r.connect(0);
    r.on_open();
    r
}

#[test]
fn test_enqueue() {
    let mut queue = OutboxQueue::new();

    let event_json = r#"{"id":"test","kind":1}"#.to_string();
    let req_id = queue.enqueue(event_json, "req_1".to_string(), 100).unwrap();

    assert!(!req_id.is_empty());
    assert_eq!(queue.len(), 1);
}

#[test]
fn test_on_ok_accepted() {
    let mut queue = OutboxQueue::new();

    let event_json = r#"{"id":"event123","kind":1}"#.to_string();
    queue.enqueue(event_json, "req_1".to_string(), 100).unwrap();

    queue.on_ok("event123", true, "");
    assert_eq!(queue.len(), 0);
}

#[test]
fn test_on_ok_rejected() {
    let mut queue = OutboxQueue::new();

    let event_json = r#"{"id":"event123","kind":1}"#.to_string();
    queue.enqueue(event_json, "req_1".to_string(), 100).unwrap();

    queue.on_ok("event123", false, "duplicate");

    assert_eq!(queue.len(), 1);
    let item = &queue.items()[0];
    assert_eq!(item.status, OutboxStatus::Error);
    assert!(item.error.is_some());
}

#[test]
fn enqueue_rejects_duplicate_request_id() {
    let mut q = OutboxQueue::new();
    q.enqueue("{}".to_string(), "r".to_string(), 1).unwrap();
    assert!(q.enqueue("{}".to_string(), "r".to_string(), 2).is_err());
    assert_eq!(q.len(), 1);
    let writes = q.take_writes();
    assert_eq!(writes.len(), 1);
    assert!(matches!(&writes[0], StorageOp::PutOutboxItem(it) if it.req_id == "r" && it.status == OutboxStatus::Queued));
}

#[test]
fn dequeue_only_returns_queued_head() {
    let mut q = OutboxQueue::new();
    assert!(q.dequeue().is_none());
    q.enqueue(r#"{"id":"a"}"#.to_string(), "r1".to_string(), 1).unwrap();
    assert_eq!(q.dequeue().unwrap(), r#"{"id":"a"}"#);
    assert_eq!(q.len(), 1);
    q.on_ok("a", false, "no");
    assert!(q.dequeue().is_none());
}

#[test]
fn ok_matches_by_event_id_not_substring() {
    let mut q = OutboxQueue::new();
    q.enqueue(r#"{"id":"abcdef","kind":1}"#.to_string(), "r1".to_string(), 1).unwrap();
    q.on_ok("abc", true, "");
    assert_eq!(q.len(), 1);
    q.on_ok("abcdef", true, "");
    assert_eq!(q.len(), 0);
}

#[test]
fn ok_rejection_records_message_and_persists() {
    let mut q = OutboxQueue::new();
    q.enqueue(r#"{"id":"e1","kind":1}"#.to_string(), "r1".to_string(), 1).unwrap();
    let _ = q.take_writes();
    q.on_ok("e1", false, "blocked");
    let it = &q.items()[0];
    assert_eq!(it.status, OutboxStatus::Error);
    assert_eq!(it.error.as_deref(), Some("blocked"));
    let w = q.take_writes();
    assert_eq!(w.len(), 1);
    assert!(matches!(&w[0], StorageOp::SetOutboxStatus { req_id, status: OutboxStatus::Error, error: Some(e) } if req_id == "r1" && e == "blocked"));
}

#[test]
fn process_sends_and_waits_for_ack() {
    let mut q = OutboxQueue::new();
    q.enqueue(r#"{"id":"e1"}"#.to_string(), "r1".to_string(), 0).unwrap();
    let relays = vec![connected_relay()];
    let frames = q.process(&relays, 10);
    assert_eq!(frames.len(), 1);
    assert_eq!(frames[0].to_text(), r#"["EVENT",{"id":"e1"}]"#);
    assert_eq!(q.items()[0].status, OutboxStatus::Sent);
    assert_eq!(q.items()[0].retry_count, 1);
    // Within five seconds it waits.
    assert!(q.process(&relays, 14).is_empty());
    assert_eq!(q.items()[0].retry_count, 1);
    // Then it is transmitted again.
    assert_eq!(q.process(&relays, 15).len(), 1);
    assert_eq!(q.items()[0].retry_count, 2);
}

#[test]
fn process_without_connected_relay_keeps_queued() {
    let mut q = OutboxQueue::new();
    q.enqueue(r#"{"id":"e1"}"#.to_string(), "r1".to_string(), 0).unwrap();
    let relays = vec![RelayConnection::new("wss://x".to_string())];
    assert!(q.process(&relays, 10).is_empty());
    assert_eq!(q.items()[0].status, OutboxStatus::Queued);
    assert_eq!(q.items()[0].retry_count, 0);
}

#[test]
fn retry_budget_exhaustion_becomes_terminal_error() {
    let mut q = OutboxQueue::new();
    q.enqueue(r#"{"id":"e1"}"#.to_string(), "r1".to_string(), 0).unwrap();
    let relays = vec![connected_relay()];
    let mut now = 0;
    for _ in 0..(MAX_RETRY_COUNT - 1) {
        now += 10;
        assert_eq!(q.process(&relays, now).len(), 1);
    }
    assert_eq!(q.items()[0].retry_count, MAX_RETRY_COUNT - 1);
    now += 10;
    assert_eq!(q.process(&relays, now).len(), 1);
    assert_eq!(q.items()[0].retry_count, MAX_RETRY_COUNT);
    let _ = q.take_writes();
    now += 10;
    assert!(q.process(&relays, now).is_empty());
    assert_eq!(q.len(), 0);
    let w = q.take_writes();
    assert!(matches!(&w[0], StorageOp::SetOutboxStatus { status: OutboxStatus::Error, error: Some(e), .. } if e == "Max retry count exceeded"));
}

#[test]
fn retry_failed_rearms_after_linear_delay() {
    let mut q = OutboxQueue::new();
    q.enqueue(r#"{"id":"e1"}"#.to_string(), "r1".to_string(), 0).unwrap();
    let relays = vec![connected_relay()];
    q.process(&relays, 100);
    q.on_ok("e1", false, "later");
    q.retry_failed(104);
    assert_eq!(q.items()[0].status, OutboxStatus::Error);
    q.retry_failed(105);
    assert_eq!(q.items()[0].status, OutboxStatus::Queued);
    assert!(q.items()[0].error.is_none());
}

#[test]
fn load_pending_restores_live_items() {
    let mk = |id: &str, status: OutboxStatus, retry: u32| OutboxItem {
        req_id: id.to_string(),
        event_json: format!(r#"{{"id":"{}"}}"#, id),
        status,
        last_try_at: 0,
        retry_count: retry,
        error: None,
    };
    let mut q = OutboxQueue::new();
    q.load_pending(vec![
        mk("a", OutboxStatus::Queued, 0),
        mk("b", OutboxStatus::Queued, 2),
        mk("c", OutboxStatus::Error, 1),
        mk("a", OutboxStatus::Sent, 1),
    ]);
    let ids: Vec<&str> = q.items().iter().map(|i| i.req_id.as_str()).collect();
    assert_eq!(ids, vec!["a", "b"]);
    assert_eq!(q.dequeue().unwrap(), r#"{"id":"a"}"#);
}
