use rustr_core::subscription::SubscriptionManager;
use rustr_core::types::TimeWindow;

#[test]
fn open_channel_filter_text() {
    let mut m = SubscriptionManager::new();
    let pairs = m.open_channel("ch_x", 1000);
    assert_eq!(pairs, vec![("ch:ch_x".to_string(), r##"{"#e":["ch_x"],"kinds":[42],"since":400}"##.to_string())]);
    assert_eq!(m.get_active_subs().len(), 1);
}

#[test]
fn open_dm_two_halves() {
    let mut m = SubscriptionManager::new();
    let pairs = m.open_dm("peer456", "self123", 1000);
    assert_eq!(pairs.len(), 2);
    assert_eq!(pairs[0].0, "dm:peer456");
    assert_eq!(pairs[0].1, r##"{"#p":["peer456"],"authors":["self123"],"kinds":[4],"since":400}"##);
    assert_eq!(pairs[1].0, "dm:peer456:r");
    assert_eq!(pairs[1].1, r##"{"#p":["self123"],"authors":["peer456"],"kinds":[4],"since":400}"##);
}

#[test]
fn eose_widening_schedule() {
    let mut m = SubscriptionManager::new();
    m.open_channel("ch_x", 1000);
    let expected = [-3200i64, -89600, -694400, -3286400];
    for since in expected {
        let r = m.on_eose("ch:ch_x", 2000).unwrap();
        assert_eq!(r.len(), 1);
        assert_eq!(r[0].0, "ch:ch_x");
        assert_eq!(r[0].1, format!(r##"{{"#e":["ch_x"],"kinds":[42],"since":{}}}"##, since));
    }
    assert!(m.on_eose("ch:ch_x", 2000).is_none());
    assert!(!m.needs_extension("ch:ch_x"));
    assert!(m.extend_window("ch:ch_x", 2000).is_none());
    let subs = m.get_active_subs();
    assert_eq!(subs[0].eose_count, 5);
    assert_eq!(subs[0].window.since, -3286400);
    assert_eq!(subs[0].last_extended_at, 2000);
}

#[test]
fn since_never_increases_across_signals() {
    let mut m = SubscriptionManager::new();
    m.open_dm("p", "me", 50_000);
    let mut last = i64::MAX;
    for _ in 0..7 {
        m.on_eose("dm:p:r", 60_000);
        let since = m.get_active_subs().iter().find(|s| s.sub_id == "dm:p:r").unwrap().window.since;
        assert!(since <= last);
        last = since;
    }
}

#[test]
fn needs_extension_stages() {
    let mut m = SubscriptionManager::new();
    m.open_channel("c", 10_000);
    assert!(!m.needs_extension("c"));
    assert!(!m.needs_extension("ch:c"));
    for _ in 0..4 {
        m.mark_eose("ch:c");
        assert!(m.needs_extension("ch:c"));
        assert!(m.should_extend_window("ch:c"));
    }
    m.mark_eose("ch:c");
    assert!(!m.needs_extension("ch:c"));
}

#[test]
fn unknown_subscriptions_are_ignored() {
    let mut m = SubscriptionManager::new();
    m.mark_eose("nope");
    assert!(m.on_eose("nope", 1).is_none());
    assert!(m.extend_window("nope", 1).is_none());
    assert!(m.get_active_subs().is_empty());
}

#[test]
fn close_subscription_forgets_it() {
    let mut m = SubscriptionManager::new();
    m.open_channel("a", 1000);
    m.open_channel("b", 1000);
    m.close_subscription("ch:a");
    let subs = m.get_active_subs();
    assert_eq!(subs.len(), 1);
    assert_eq!(subs[0].sub_id, "ch:b");
}

#[test]
fn reopening_replaces_subscription() {
    let mut m = SubscriptionManager::new();
    m.open_channel("a", 1000);
    m.on_eose("ch:a", 1000);
    m.open_channel("a", 5000);
    let subs = m.get_active_subs();
    assert_eq!(subs.len(), 1);
    assert_eq!(subs[0].eose_count, 0);
    assert_eq!(subs[0].window.since, 4400);
}

#[test]
fn channel_id_is_escaped_in_filter() {
    let mut m = SubscriptionManager::new();
    let pairs = m.open_channel("a\"b", 600);
    assert_eq!(pairs[0].1, r##"{"#e":["a\"b"],"kinds":[42],"since":0}"##);
}

#[test]
fn time_window_extend_saturates() {
    let mut w = TimeWindow::new(100);
    w.extend(3600);
    assert_eq!(w.since, -3500);
    assert!(w.until.is_none());
    let mut w = TimeWindow::new(i64::MIN + 5);
    w.extend(10);
    assert_eq!(w.since, i64::MIN);
}
