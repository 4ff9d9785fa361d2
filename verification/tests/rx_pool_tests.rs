use sassytalkie::rx_pool::RxPeerPool;

#[test]
fn decoder_pool_never_exceeds_sender_cap() {
    let now = 1_000_000u64;
    let mut pool = RxPeerPool::new(2, 60_000);
    pool.get_or_insert("a", now);
    pool.get_or_insert("b", now + 1);
    let c = pool.get_or_insert("c", now + 2);
    assert_eq!(pool.len(), 2);
    assert!(!pool.contains("a"));
    assert!(pool.contains("b"));
    assert!(pool.contains("c"));
    assert!(c.created);
    assert_eq!(c.removed, vec!["a".to_string()]);
}

#[test]
fn decoder_pool_expires_idle_senders() {
    let now = 1_000_000u64;
    let mut pool = RxPeerPool::new(4, 5_000);
    pool.get_or_insert("stale", now);
    let a = pool.get_or_insert("fresh", now + 6_000);
    assert_eq!(pool.len(), 1);
    assert!(!pool.contains("stale"));
    assert!(pool.contains("fresh"));
    assert_eq!(a.removed, vec!["stale".to_string()]);
}

#[test]
fn known_sender_keeps_state_and_clock() {
    let mut pool = RxPeerPool::new(1, 5_000);
    assert!(pool.get_or_insert("a", 100).created);
    assert_eq!(pool.advance_synth_ts("a", 20), Some(20));
    assert_eq!(pool.advance_synth_ts("a", 20), Some(40));
    let again = pool.get_or_insert("a", 200);
    assert!(!again.created);
    assert!(again.removed.is_empty());
    assert_eq!(pool.advance_synth_ts("a", u64::MAX), Some(u64::MAX));
    assert_eq!(pool.advance_synth_ts("b", 20), None);
}

#[test]
fn idle_sender_gets_fresh_state_again() {
    let mut pool = RxPeerPool::new(2, 1_000);
    pool.get_or_insert("a", 0);
    assert_eq!(pool.advance_synth_ts("a", 20), Some(20));
    let back = pool.get_or_insert("a", 5_000);
    assert!(back.created);
    assert_eq!(back.removed, vec!["a".to_string()]);
    assert_eq!(pool.advance_synth_ts("a", 20), Some(20));
}

#[test]
fn earlier_clock_counts_as_not_idle() {
    let mut pool = RxPeerPool::new(2, 10);
    pool.get_or_insert("a", 500);
    let r = pool.get_or_insert("b", 100);
    assert!(r.removed.is_empty());
    assert_eq!(pool.len(), 2);
}
