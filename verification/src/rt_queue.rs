//! A bounded queue for live audio: a full queue drops the newest item
//! rather than blocking the producer, and items older than a maximum age
//! are skipped on receipt. Every outcome is counted.
use vstd::prelude::*;
use std::collections::VecDeque;

verus! {

/// Counters of one queue. They only grow (wrapping at `u64::MAX`).
#[derive(Debug, Clone, Copy, PartialEq, Eq, Structural)]
pub struct QueueMetricsSnapshot {
    pub enqueued: u64,
    pub dequeued: u64,
    pub dropped_full: u64,
    pub dropped_stale: u64,
    pub dropped_closed: u64,
}

/// `c + k`, wrapping as the counters do.
pub open spec fn bump(c: u64, k: nat) -> u64 {
    ((c + k) % 0x1_0000_0000_0000_0000) as u64
}

/// Milliseconds an item queued at `at` has waited at `now` (zero if the
/// clock went back).
pub open spec fn waited(now: u64, at: u64) -> int {
    if now >= at { now - at } else { 0 }
}

/// The index of the first item still young enough at `now`, or the length.
pub open spec fn first_fresh<T>(items: Seq<(T, u64)>, now: u64, max_age: u64, i: int) -> int
    decreases items.len() - i,
{
    if i < 0 || i >= items.len() {
        items.len() as int
    } else if waited(now, items[i].1) <= max_age {
        i
    } else {
        first_fresh(items, now, max_age, i + 1)
    }
}

proof fn lemma_first_fresh<T>(items: Seq<(T, u64)>, now: u64, max_age: u64, i: int)
    requires
        0 <= i <= items.len(),
    ensures
        i <= first_fresh(items, now, max_age, i) <= items.len(),
    decreases items.len() - i,
{
    if i < items.len() && waited(now, items[i].1) > max_age {
        lemma_first_fresh(items, now, max_age, i + 1);
    }
}

/// A bounded queue of items stamped with when they were queued.
pub struct RealtimeQueue<T> {
    items: VecDeque<(T, u64)>,
    capacity: usize,
    max_age_ms: u64,
    closed: bool,
    metrics: QueueMetricsSnapshot,
}

impl<T> RealtimeQueue<T> {
    /// The queued items with their enqueue times, oldest first.
    pub closed spec fn items_spec(&self) -> Seq<(T, u64)> {
        self.items@
    }

    /// How many items fit.
    pub closed spec fn capacity_spec(&self) -> nat {
        self.capacity as nat
    }

    /// The age beyond which an item is skipped.
    pub closed spec fn max_age_spec(&self) -> u64 {
        self.max_age_ms
    }

    /// Whether the receiving side is gone.
    pub closed spec fn closed_spec(&self) -> bool {
        self.closed
    }

    /// The counters.
    pub closed spec fn metrics_spec(&self) -> QueueMetricsSnapshot {
        self.metrics
    }

    /// Never more items than the capacity, which is positive.
    pub closed spec fn wf(&self) -> bool {
        self.capacity > 0 && self.items@.len() <= self.capacity
    }

    /// An empty open queue for `capacity` items.
    pub fn new(capacity: usize, max_age_ms: u64) -> (q: Self)
        requires
            capacity > 0,
        ensures
            q.wf(),
            q.items_spec() == Seq::<(T, u64)>::empty(),
            q.capacity_spec() == capacity,
            q.max_age_spec() == max_age_ms,
            !q.closed_spec(),
            q.metrics_spec() == (QueueMetricsSnapshot {
                enqueued: 0,
                dequeued: 0,
                dropped_full: 0,
                dropped_stale: 0,
                dropped_closed: 0,
            }),
    {
        RealtimeQueue {
            items: VecDeque::new(),
            capacity,
            max_age_ms,
            closed: false,
            metrics: QueueMetricsSnapshot { enqueued: 0, dequeued: 0, dropped_full: 0, dropped_stale: 0, dropped_closed: 0 },
        }
    }

    /// The counters now.
    pub fn metrics(&self) -> (m: QueueMetricsSnapshot)
        ensures
            m == self.metrics_spec(),
    {
        self.metrics
    }

    /// Number of queued items.
    pub fn len(&self) -> (n: usize)
        ensures
            n == self.items_spec().len(),
    {
        self.items.len()
    }

    /// The receiving side is gone: later sends fail as closed.
    pub fn close(&mut self)
        ensures
            final(self).closed_spec(),
            final(self).items_spec() == old(self).items_spec(),
            final(self).capacity_spec() == old(self).capacity_spec(),
            final(self).max_age_spec() == old(self).max_age_spec(),
            final(self).metrics_spec() == old(self).metrics_spec(),
            old(self).wf() ==> final(self).wf(),
    {
        self.closed = true;
    }

    /// Queue `value` at `now_ms`, or drop it: when closed (counted as
    /// dropped closed) or full (counted as dropped full).
    pub fn try_send(&mut self, value: T, now_ms: u64) -> (r: Result<(), &'static str>)
        requires
            old(self).wf(),
        ensures
            final(self).wf(),
            final(self).capacity_spec() == old(self).capacity_spec(),
            final(self).max_age_spec() == old(self).max_age_spec(),
            final(self).closed_spec() == old(self).closed_spec(),
            old(self).closed_spec() ==> {
                &&& r == Err::<(), &'static str>("real-time queue closed")
                &&& final(self).items_spec() == old(self).items_spec()
                &&& final(self).metrics_spec() == (QueueMetricsSnapshot {
                    dropped_closed: bump(old(self).metrics_spec().dropped_closed, 1),
                    ..old(self).metrics_spec()
                })
            },
            !old(self).closed_spec() && old(self).items_spec().len() >= old(self).capacity_spec() ==> {
                &&& r == Err::<(), &'static str>("real-time queue full")
                &&& final(self).items_spec() == old(self).items_spec()
                &&& final(self).metrics_spec() == (QueueMetricsSnapshot {
                    dropped_full: bump(old(self).metrics_spec().dropped_full, 1),
                    ..old(self).metrics_spec()
                })
            },
            !old(self).closed_spec() && old(self).items_spec().len() < old(self).capacity_spec() ==> {
                &&& r is Ok
                &&& final(self).items_spec() == old(self).items_spec().push((value, now_ms))
                &&& final(self).metrics_spec() == (QueueMetricsSnapshot {
                    enqueued: bump(old(self).metrics_spec().enqueued, 1),
                    ..old(self).metrics_spec()
                })
            },
    {
        if self.closed {
            self.metrics.dropped_closed = self.metrics.dropped_closed.wrapping_add(1);
            return Err("real-time queue closed");
        }
        if self.items.len() >= self.capacity {
            self.metrics.dropped_full = self.metrics.dropped_full.wrapping_add(1);
            return Err("real-time queue full");
        }
        self.items.push_back((value, now_ms));
        self.metrics.enqueued = self.metrics.enqueued.wrapping_add(1);
        Ok(())
    }

    /// The oldest item still young enough at `now_ms`; older items before
    /// it are dropped and counted as stale. `None` when nothing is left.
    pub fn recv(&mut self, now_ms: u64) -> (r: Option<T>)
        requires
            old(self).wf(),
        ensures
            final(self).wf(),
            final(self).capacity_spec() == old(self).capacity_spec(),
            final(self).max_age_spec() == old(self).max_age_spec(),
            final(self).closed_spec() == old(self).closed_spec(),
            ({
                let items = old(self).items_spec();
                let k = first_fresh(items, now_ms, old(self).max_age_spec(), 0);
                let m = old(self).metrics_spec();
                if k < items.len() {
                    &&& r == Some(items[k].0)
                    &&& final(self).items_spec() == items.subrange(k + 1, items.len() as int)
                    &&& final(self).metrics_spec() == (QueueMetricsSnapshot {
                        dequeued: bump(m.dequeued, 1),
                        dropped_stale: bump(m.dropped_stale, k as nat),
                        ..m
                    })
                } else {
                    &&& r is None
                    &&& final(self).items_spec() == Seq::<(T, u64)>::empty()
                    &&& final(self).metrics_spec() == (QueueMetricsSnapshot {
                        dropped_stale: bump(m.dropped_stale, items.len()),
                        ..m
                    })
                }
            }),
    {
        let ghost items = self.items@;
        let ghost m = self.metrics;
        let ghost k = first_fresh(items, now_ms, self.max_age_ms, 0);
        proof { lemma_first_fresh(items, now_ms, self.max_age_ms, 0); }
        let mut skipped: Ghost<nat> = Ghost(0);
        loop
            invariant
                self.capacity == old(self).capacity,
                self.max_age_ms == old(self).max_age_ms,
                self.closed == old(self).closed,
                self.capacity > 0,
                items == old(self).items@,
                m == old(self).metrics,
                k == first_fresh(items, now_ms, self.max_age_ms, 0),
                skipped@ <= k,
                k <= items.len(),
                items.len() <= self.capacity,
                self.items@ == items.subrange(skipped@ as int, items.len() as int),
                first_fresh(items, now_ms, self.max_age_ms, skipped@ as int) == k,
                self.metrics == (QueueMetricsSnapshot { dropped_stale: bump(m.dropped_stale, skipped@), ..m }),
            decreases items.len() - skipped@,
        {
            let front = self.items.pop_front();
            match front {
                None => {
                    assert(skipped@ == items.len());
                    return None;
                }
                Some((value, at)) => {
                    let waited_ms: u64 = if now_ms >= at { now_ms - at } else { 0 };
                    if waited_ms > self.max_age_ms {
                        proof {
                            assert(items[skipped@ as int] == (value, at));
                            assert(self.items@ =~= items.subrange(skipped@ as int + 1, items.len() as int));
                            assert(bump(bump(m.dropped_stale, skipped@), 1) == bump(m.dropped_stale, skipped@ + 1));
                            lemma_first_fresh(items, now_ms, self.max_age_ms, skipped@ as int + 1);
                        }
                        self.metrics.dropped_stale = self.metrics.dropped_stale.wrapping_add(1);
                        skipped = Ghost(skipped@ + 1);
                    } else {
                        proof {
                            assert(items[skipped@ as int] == (value, at));
                            assert(self.items@ =~= items.subrange(skipped@ as int + 1, items.len() as int));
                        }
                        self.metrics.dequeued = self.metrics.dequeued.wrapping_add(1);
                        return Some(value);
                    }
                }
            }
        }
    }

    /// Drop every queued item, counting each as stale.
    pub fn discard_pending(&mut self)
        requires
            old(self).wf(),
        ensures
            final(self).wf(),
            final(self).capacity_spec() == old(self).capacity_spec(),
            final(self).max_age_spec() == old(self).max_age_spec(),
            final(self).closed_spec() == old(self).closed_spec(),
            final(self).items_spec() == Seq::<(T, u64)>::empty(),
            final(self).metrics_spec() == (QueueMetricsSnapshot {
                dropped_stale: bump(old(self).metrics_spec().dropped_stale, old(self).items_spec().len()),
                ..old(self).metrics_spec()
            }),
    {
        let ghost items = self.items@;
        let ghost m = self.metrics;
        let mut dropped: Ghost<nat> = Ghost(0);
        loop
            invariant
                self.capacity == old(self).capacity,
                self.max_age_ms == old(self).max_age_ms,
                self.closed == old(self).closed,
                self.capacity > 0,
                items == old(self).items@,
                m == old(self).metrics,
                dropped@ <= items.len(),
                self.items@ == items.subrange(dropped@ as int, items.len() as int),
                self.metrics == (QueueMetricsSnapshot { dropped_stale: bump(m.dropped_stale, dropped@), ..m }),
            decreases items.len() - dropped@,
        {
            match self.items.pop_front() {
                None => {
                    assert(dropped@ == items.len());
                    return;
                }
                Some(_) => {
                    proof {
                        assert(self.items@ =~= items.subrange(dropped@ as int + 1, items.len() as int));
                        assert(bump(bump(m.dropped_stale, dropped@), 1) == bump(m.dropped_stale, dropped@ + 1));
                    }
                    self.metrics.dropped_stale = self.metrics.dropped_stale.wrapping_add(1);
                    dropped = Ghost(dropped@ + 1);
                }
            }
        }
    }
}

/// While the newest queued item is young enough, a receive gets some item:
/// stale items never hide a fresh one.
pub proof fn lemma_fresh_item_received<T>(items: Seq<(T, u64)>, value: T, at: u64, now: u64, max_age: u64)
    requires
        waited(now, at) <= max_age,
    ensures
        first_fresh(seq![(value, at)], now, max_age, 0) == 0,
        first_fresh(items.push((value, at)), now, max_age, 0) < items.len() + 1,
{
    lemma_first_fresh_bound(items.push((value, at)), now, max_age, 0, items.len() as int);
}

proof fn lemma_first_fresh_bound<T>(items: Seq<(T, u64)>, now: u64, max_age: u64, i: int, j: int)
    requires
        0 <= i <= j < items.len(),
        waited(now, items[j].1) <= max_age,
    ensures
        first_fresh(items, now, max_age, i) <= j,
    decreases j - i,
{
    if waited(now, items[i].1) > max_age {
        lemma_first_fresh_bound(items, now, max_age, i + 1, j);
    }
}

} // verus!
