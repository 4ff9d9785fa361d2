//! Per-sender receive state, with a bound on how many senders are tracked
//! and on how long an idle sender is kept. Each tracked sender owns a
//! decoder on the caller's side; the pool says which senders were dropped
//! and whether a new one was admitted, so the caller keeps its decoders in
//! step.
use vstd::prelude::*;
use crate::strmap::{string_views, StrMap};

verus! {

/// Receive state of one sender.
#[derive(Debug, Clone, Copy, PartialEq, Eq, Structural)]
pub struct RxPeer {
    /// Clock for frames that carry no timestamp of their own.
    pub synth_ts: u64,
    /// When the sender was last heard, in ms.
    pub last_used: u64,
}

/// Milliseconds from `then` to `now`, or zero when `now` is earlier.
pub open spec fn idle_ms(now: u64, then: u64) -> int {
    if now >= then { now - then } else { 0 }
}

/// Whether a sender heard at `p.last_used` is still within `ttl` at `now`.
pub open spec fn is_fresh(p: RxPeer, now: u64, ttl: u64) -> bool {
    idle_ms(now, p.last_used) <= ttl
}

/// The senders of `m` that have not been idle longer than `ttl`.
pub open spec fn unexpired(m: Map<Seq<char>, RxPeer>, now: u64, ttl: u64) -> Map<Seq<char>, RxPeer> {
    Map::new(|k: Seq<char>| m.dom().contains(k) && is_fresh(m[k], now, ttl), |k: Seq<char>| m[k])
}

/// `k` is a least recently used sender of `m`.
pub open spec fn is_lru(m: Map<Seq<char>, RxPeer>, k: Seq<char>) -> bool {
    &&& m.dom().contains(k)
    &&& forall|j: Seq<char>| m.dom().contains(j) ==> m[k].last_used <= #[trigger] m[j].last_used
}

/// What admitting a sender did to the pool.
pub struct Admission {
    /// Senders whose state was dropped (idle too long, or evicted).
    pub removed: Vec<String>,
    /// Whether the sender got fresh state (and so needs a fresh decoder).
    pub created: bool,
}

/// Receive state per sender, at most `max_peers` of them.
pub struct RxPeerPool {
    peers: StrMap<RxPeer>,
    max_peers: usize,
    idle_ttl_ms: u64,
}

impl RxPeerPool {
    /// The state of each tracked sender.
    pub closed spec fn view(&self) -> Map<Seq<char>, RxPeer> {
        self.peers.view()
    }

    /// How many senders may be tracked.
    pub closed spec fn cap(&self) -> nat {
        self.max_peers as nat
    }

    /// How long an idle sender is kept, in ms.
    pub closed spec fn ttl(&self) -> u64 {
        self.idle_ttl_ms
    }

    /// The cap is positive and never exceeded.
    pub closed spec fn wf(&self) -> bool {
        &&& self.peers.wf()
        &&& self.max_peers > 0
        &&& self.peers.view().len() <= self.max_peers
    }

    /// An empty pool for at most `max_peers` senders.
    pub fn new(max_peers: usize, idle_ttl_ms: u64) -> (p: Self)
        requires
            max_peers > 0,
        ensures
            p.wf(),
            p.view() == Map::<Seq<char>, RxPeer>::empty(),
            p.cap() == max_peers,
            p.ttl() == idle_ttl_ms,
    {
        let peers = StrMap::new();
        proof { peers.lemma_keys(); }
        RxPeerPool { peers, max_peers, idle_ttl_ms }
    }

    /// Number of tracked senders.
    pub fn len(&self) -> (n: usize)
        requires
            self.wf(),
        ensures
            n == self.view().len(),
    {
        self.peers.len()
    }

    /// Whether `sender` is tracked.
    pub fn contains(&self, sender: &str) -> (b: bool)
        requires
            self.wf(),
        ensures
            b == self.view().dom().contains(sender@),
    {
        self.peers.contains_key(sender)
    }

    /// Drop every sender idle longer than the ttl at `now_ms`; returns the
    /// dropped senders.
    fn expire(&mut self, now_ms: u64) -> (removed: Vec<String>)
        requires
            old(self).wf(),
        ensures
            final(self).peers.wf(),
            final(self).max_peers == old(self).max_peers,
            final(self).idle_ttl_ms == old(self).idle_ttl_ms,
            final(self).view() == unexpired(old(self).view(), now_ms, old(self).idle_ttl_ms),
            final(self).view().dom().subset_of(old(self).view().dom()),
            string_views(removed@).to_set() == old(self).view().dom().difference(final(self).view().dom()),
    {
        let ttl = self.idle_ttl_ms;
        let ghost m = self.view();
        let ghost ks = self.peers.key_seq();
        proof { self.peers.lemma_keys(); }
        let mut kept: StrMap<RxPeer> = StrMap::new();
        let mut removed: Vec<String> = Vec::new();
        let n = self.peers.len();
        let mut i: usize = 0;
        while i < n
            invariant
                self.peers.wf(),
                self.view() == m,
                self.peers.key_seq() == ks,
                n == ks.len(),
                m.dom() == ks.to_set(),
                ks.no_duplicates(),
                ttl == self.idle_ttl_ms,
                i <= n,
                kept.wf(),
                kept.view() == Map::new(
                    |k: Seq<char>| ks.take(i as int).contains(k) && is_fresh(m[k], now_ms, ttl),
                    |k: Seq<char>| m[k],
                ),
                string_views(removed@).to_set() == Set::new(
                    |k: Seq<char>| ks.take(i as int).contains(k) && !is_fresh(m[k], now_ms, ttl),
                ),
            decreases n - i,
        {
            let (k, p) = self.peers.entry_at(i);
            let ghost kv = k@;
            let idle: u64 = if now_ms >= p.last_used { now_ms - p.last_used } else { 0 };
            let ghost before_kept = kept.view();
            let ghost before_removed = string_views(removed@);
            proof {
                assert(ks.take(i + 1) == ks.take(i as int).push(kv));
                let t0 = ks.take(i as int);
                let t1 = ks.take(i + 1);
                assert forall|x: Seq<char>| t1.contains(x) <==> (t0.contains(x) || x == kv) by {
                    if t1.contains(x) {
                        let j = choose|j: int| 0 <= j < t1.len() && #[trigger] t1[j] == x;
                        if j < i {
                            assert(t0[j] == x);
                        }
                    }
                    if t0.contains(x) {
                        let j = choose|j: int| 0 <= j < t0.len() && #[trigger] t0[j] == x;
                        assert(t1[j] == x);
                    }
                    if x == kv {
                        assert(t1[i as int] == x);
                    }
                }
                assert(!ks.take(i as int).contains(kv)) by {
                    if ks.take(i as int).contains(kv) {
                        let j = choose|j: int| 0 <= j < t0.len() && #[trigger] t0[j] == kv;
                        assert(ks[j] == ks[i as int]);
                    }
                }
            }
            if idle <= ttl {
                kept.insert(k.clone(), *p);
                proof {
                    assert(kept.view() =~= Map::new(
                        |x: Seq<char>| ks.take(i + 1).contains(x) && is_fresh(m[x], now_ms, ttl),
                        |x: Seq<char>| m[x],
                    ));
                    assert(string_views(removed@).to_set() =~= Set::new(
                        |x: Seq<char>| ks.take(i + 1).contains(x) && !is_fresh(m[x], now_ms, ttl),
                    ));
                }
            } else {
                let c = k.clone();
                removed.push(c);
                proof {
                    assert(string_views(removed@) == before_removed.push(kv)) by {
                        assert(string_views(removed@) =~= before_removed.push(kv));
                    }
                    before_removed.lemma_push_to_set_commute(kv);
                    assert(string_views(removed@).to_set() =~= Set::new(
                        |x: Seq<char>| ks.take(i + 1).contains(x) && !is_fresh(m[x], now_ms, ttl),
                    ));
                    assert(kept.view() =~= Map::new(
                        |x: Seq<char>| ks.take(i + 1).contains(x) && is_fresh(m[x], now_ms, ttl),
                        |x: Seq<char>| m[x],
                    ));
                }
            }
            i = i + 1;
        }
        proof {
            assert(ks.take(n as int) == ks);
            assert(kept.view() =~= unexpired(m, now_ms, ttl));
            assert(string_views(removed@).to_set() =~= m.dom().difference(kept.view().dom()));
        }
        self.peers = kept;
        removed
    }

    /// Position of a least recently used sender in key order.
    fn lru_index(&self) -> (i: usize)
        requires
            self.peers.wf(),
            self.view().len() > 0,
        ensures
            i < self.peers.key_seq().len(),
            is_lru(self.view(), self.peers.key_seq()[i as int]),
    {
        proof { self.peers.lemma_keys(); }
        let n = self.peers.len();
        let ghost ks = self.peers.key_seq();
        let ghost m = self.view();
        let mut best: usize = 0;
        let mut i: usize = 1;
        assert(m.dom().contains(ks[0]));
        while i < n
            invariant
                self.peers.wf(),
                ks == self.peers.key_seq(),
                m == self.view(),
                n == ks.len(),
                m.dom() == ks.to_set(),
                0 < n,
                best < i <= n,
                forall|j: int| 0 <= j < i ==> m[ks[best as int]].last_used <= #[trigger] m[ks[j]].last_used,
            decreases n - i,
        {
            let (_, pi) = self.peers.entry_at(i);
            let (_, pb) = self.peers.entry_at(best);
            if pi.last_used < pb.last_used {
                best = i;
            }
            i = i + 1;
        }
        proof {
            assert(m.dom().contains(ks[best as int]));
            assert forall|x: Seq<char>| m.dom().contains(x) implies m[ks[best as int]].last_used <= #[trigger] m[x].last_used by {
                assert(ks.to_set().contains(x));
                let j = choose|j: int| 0 <= j < ks.len() && ks[j] == x;
                assert(m[ks[best as int]].last_used <= m[ks[j]].last_used);
            }
        }
        best
    }

    /// Admit `sender` at `now_ms`: drop senders idle longer than the ttl;
    /// if `sender` is new and the pool is full, evict a least recently used
    /// sender; then mark `sender` as used now, with fresh state if it had
    /// none.
    pub fn get_or_insert(&mut self, sender: &str, now_ms: u64) -> (a: Admission)
        requires
            old(self).wf(),
        ensures
            final(self).wf(),
            final(self).cap() == old(self).cap(),
            final(self).ttl() == old(self).ttl(),
            ({
                let u = unexpired(old(self).view(), now_ms, old(self).ttl());
                let entry = RxPeer {
                    synth_ts: if u.dom().contains(sender@) { u[sender@].synth_ts } else { 0 },
                    last_used: now_ms,
                };
                &&& a.created == !u.dom().contains(sender@)
                &&& (u.dom().contains(sender@) || u.len() < old(self).cap()) ==> {
                    &&& final(self).view() == u.insert(sender@, entry)
                    &&& string_views(a.removed@).to_set() == old(self).view().dom().difference(u.dom())
                }
                &&& !(u.dom().contains(sender@) || u.len() < old(self).cap()) ==> exists|v: Seq<char>| {
                    &&& is_lru(u, v)
                    &&& final(self).view() == u.remove(v).insert(sender@, entry)
                    &&& string_views(a.removed@).to_set() == old(self).view().dom().difference(u.remove(v).dom())
                }
            }),
    {
        let ghost old_view = self.view();
        proof { self.peers.lemma_keys(); }
        let mut removed = self.expire(now_ms);
        let ghost u = self.view();
        proof {
            vstd::set_lib::lemma_len_subset(u.dom(), old_view.dom());
            self.peers.lemma_keys();
        }
        let present = self.peers.contains_key(sender);
        if !present && self.peers.len() >= self.max_peers {
            let i = self.lru_index();
            let ghost before_removed = string_views(removed@);
            let (k, _) = self.peers.remove_at(i);
            let ghost v = k@;
            removed.push(k);
            proof {
                assert(string_views(removed@) =~= before_removed.push(v));
                before_removed.lemma_push_to_set_commute(v);
                assert(string_views(removed@).to_set() =~= old_view.dom().difference(u.remove(v).dom()));
                self.peers.lemma_keys();
            }
        }
        let ghost mid = self.view();
        let synth = match self.peers.get(sender) {
            Some(p) => p.synth_ts,
            None => 0,
        };
        self.peers.insert(sender.to_owned(), RxPeer { synth_ts: synth, last_used: now_ms });
        proof {
            self.peers.lemma_keys();
            if !present {
                assert(!mid.dom().contains(sender@));
                assert(self.view().dom() =~= mid.dom().insert(sender@));
            } else {
                assert(self.view().dom() =~= mid.dom());
            }
        }
        Admission { removed, created: !present }
    }

    /// Advance `sender`'s synthetic clock by `step` ms (saturating) and
    /// return it; `None` when the sender is not tracked.
    pub fn advance_synth_ts(&mut self, sender: &str, step: u64) -> (r: Option<u64>)
        requires
            old(self).wf(),
        ensures
            final(self).wf(),
            final(self).cap() == old(self).cap(),
            final(self).ttl() == old(self).ttl(),
            match r {
                Some(t) => old(self).view().dom().contains(sender@)
                    && t == (if old(self).view()[sender@].synth_ts + step > u64::MAX {
                        u64::MAX as int
                    } else {
                        old(self).view()[sender@].synth_ts + step
                    })
                    && final(self).view() == old(self).view().insert(
                        sender@,
                        RxPeer { synth_ts: t, last_used: old(self).view()[sender@].last_used },
                    ),
                None => !old(self).view().dom().contains(sender@) && final(self).view() == old(self).view(),
            },
    {
        let p = match self.peers.get(sender) {
            Some(p) => *p,
            None => return None,
        };
        let t = p.synth_ts.saturating_add(step);
        proof { self.peers.lemma_keys(); }
        self.peers.insert(sender.to_owned(), RxPeer { synth_ts: t, last_used: p.last_used });
        proof {
            self.peers.lemma_keys();
            assert(self.view().dom() =~= old(self).view().dom());
        }
        Some(t)
    }
}

/// A sender's state stays bounded: after any admission the pool holds at
/// most its cap, holds the admitted sender, and every other sender it holds
/// was heard within the ttl.
pub proof fn lemma_admission_bounds(
    before: Map<Seq<char>, RxPeer>,
    after: Map<Seq<char>, RxPeer>,
    sender: Seq<char>,
    now: u64,
    ttl: u64,
    cap: nat,
)
    requires
        before.dom().finite(),
        before.len() <= cap,
        cap > 0,
        ({
            let u = unexpired(before, now, ttl);
            let entry = RxPeer {
                synth_ts: if u.dom().contains(sender) { u[sender].synth_ts } else { 0 },
                last_used: now,
            };
            &&& (u.dom().contains(sender) || u.len() < cap) ==> after == u.insert(sender, entry)
            &&& !(u.dom().contains(sender) || u.len() < cap) ==> exists|v: Seq<char>|
                is_lru(u, v) && after == u.remove(v).insert(sender, entry)
        }),
    ensures
        after.dom().finite(),
        after.len() <= cap,
        after.dom().contains(sender),
        after[sender].last_used == now,
        forall|k: Seq<char>| #[trigger] after.dom().contains(k) ==> is_fresh(after[k], now, ttl),
{
    let u = unexpired(before, now, ttl);
    assert(u.dom().subset_of(before.dom()));
    vstd::set_lib::lemma_len_subset(u.dom(), before.dom());
    if u.dom().contains(sender) || u.len() < cap {
        if u.dom().contains(sender) {
            assert(u.insert(sender, after[sender]).dom() =~= u.dom());
        }
    } else {
        let v = choose|v: Seq<char>| is_lru(u, v) && after == u.remove(v).insert(sender, after[sender]);
        assert(u.remove(v).len() == u.len() - 1);
    }
    assert forall|k: Seq<char>| #[trigger] after.dom().contains(k) implies is_fresh(after[k], now, ttl) by {
        if k != sender {
            assert(u.dom().contains(k));
        }
    }
}

} // verus!
