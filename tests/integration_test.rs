use rustr_core::relay::{ExponentialBackoff, RelayMessage};
use rustr_core::storage::MockStorage;

#[test]
fn test_storage_mock() {
    let _storage = MockStorage::new();
}

#[test]
fn integration_test_test_relay_message_parse() {
    let json = r#"["EVENT","sub1",{"id":"abc","kind":1}]"#;
    let msg = RelayMessage::parse(json).unwrap();
    match msg {
        RelayMessage::Event { sub_id, .. } => assert_eq!(sub_id, "sub1"),
        _ => panic!("Expected EVENT message"),
    }
}

#[test]
fn integration_test_test_exponential_backoff() {
    let mut backoff = ExponentialBackoff::new();
    assert_eq!(backoff.next_delay(), 1);
    assert_eq!(backoff.next_delay(), 2);
    assert_eq!(backoff.next_delay(), 4);

    backoff.reset();
    assert_eq!(backoff.next_delay(), 1);
}
