use sassytalkie::rt_queue::{QueueMetricsSnapshot, RealtimeQueue};

#[test]
fn bounded_queue_drops_when_full() {
    let mut q = RealtimeQueue::new(1, 1_000);
    assert!(q.try_send(1, 0).is_ok());
    assert_eq!(q.try_send(2, 0), Err("real-time queue full"));
    assert_eq!(q.recv(0), Some(1));
    let metrics = q.metrics();
    assert_eq!(metrics.enqueued, 1);
    assert_eq!(metrics.dequeued, 1);
    assert_eq!(metrics.dropped_full, 1);
}

#[test]
fn stale_items_are_skipped_and_counted() {
    let mut q = RealtimeQueue::new(2, 5);
    q.try_send(1, 100).unwrap();
    q.try_send(2, 110).unwrap();
    assert_eq!(q.recv(110), Some(2));
    let metrics = q.metrics();
    assert_eq!(metrics.dropped_stale, 1);
    assert_eq!(metrics.dequeued, 1);
}

#[test]
fn closed_queue_and_discard() {
    let mut q = RealtimeQueue::new(4, 50);
    q.try_send("a", 0).unwrap();
    q.try_send("b", 0).unwrap();
    q.discard_pending();
    assert_eq!(q.len(), 0);
    assert_eq!(q.recv(0), None);
    q.close();
    assert_eq!(q.try_send("c", 0), Err("real-time queue closed"));
    assert_eq!(
        q.metrics(),
        QueueMetricsSnapshot { enqueued: 2, dequeued: 0, dropped_full: 0, dropped_stale: 2, dropped_closed: 1 }
    );
}

#[test]
fn all_stale_items_are_dropped() {
    let mut q = RealtimeQueue::new(3, 10);
    q.try_send(1, 0).unwrap();
    q.try_send(2, 1).unwrap();
    assert_eq!(q.recv(100), None);
    assert_eq!(q.len(), 0);
    assert_eq!(q.metrics().dropped_stale, 2);
    q.try_send(3, 200).unwrap();
    assert_eq!(q.recv(150), Some(3));
}
