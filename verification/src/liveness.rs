//! Per-peer liveness from heartbeats: last time heard, presence byte,
//! session epoch and round-trip time from echoed sequence numbers.
use vstd::prelude::*;
use std::collections::HashMap;
use crate::strmap::{StrMap, string_views};

verus! {

broadcast use vstd::std_specs::hash::group_hash_axioms;

/// Health of a peer by the age of its last heartbeat.
#[derive(Debug, PartialEq, Eq, Clone, Copy, Structural)]
pub enum PeerHealth {
    Healthy,
    Degraded,
    Stale,
}

/// Heartbeats older than this many pending entries clear the pending set.
pub const MAX_PENDING: usize = 64;

/// What the tracker knows about one peer.
pub struct PeerView {
    pub epoch: u64,
    pub last_rx_ms: u64,
    pub last_presence: u8,
    pub rtt_ms: Option<u32>,
    /// Sent heartbeat sequence numbers awaiting an echo, with send times.
    pub pending: Map<u32, u64>,
}

struct PeerState {
    epoch: u64,
    last_rx_ms: u64,
    last_presence: u8,
    rtt_ms: Option<u32>,
    pending: HashMap<u32, u64>,
}

spec fn peer_view(p: PeerState) -> PeerView {
    PeerView {
        epoch: p.epoch,
        last_rx_ms: p.last_rx_ms,
        last_presence: p.last_presence,
        rtt_ms: p.rtt_ms,
        pending: p.pending@,
    }
}

/// A peer never heard from before, as created on first contact.
pub open spec fn fresh_peer(epoch: u64, last_rx_ms: u64, last_presence: u8) -> PeerView {
    PeerView { epoch, last_rx_ms, last_presence, rtt_ms: None, pending: Map::empty() }
}

/// The peer state after recording an outgoing heartbeat `seq` sent at `ts_ms`.
pub open spec fn after_sent(p: PeerView, seq: u32, ts_ms: u64) -> PeerView {
    let pend = if p.pending.len() > MAX_PENDING { Map::<u32, u64>::empty() } else { p.pending };
    PeerView { pending: pend.insert(seq, ts_ms), ..p }
}

/// The peer state after an incoming heartbeat received at `now_ms`: epoch,
/// receive time and presence are refreshed, and an echoed pending sequence
/// number yields the round-trip time (saturating, truncated to 32 bits).
pub open spec fn after_heard(p: PeerView, epoch: u64, seq: u32, now_ms: u64, state: u8) -> PeerView {
    if p.pending.contains_key(seq) {
        let sent = p.pending[seq];
        let rtt = if now_ms >= sent { (now_ms - sent) as u32 } else { 0u32 };
        PeerView { epoch, last_rx_ms: now_ms, last_presence: state, rtt_ms: Some(rtt), pending: p.pending.remove(seq) }
    } else {
        PeerView { epoch, last_rx_ms: now_ms, last_presence: state, ..p }
    }
}

/// Health by age since the last heartbeat: under 3 s healthy, under 8 s
/// degraded, otherwise (or never heard) stale.
pub open spec fn health_spec(m: Map<Seq<char>, PeerView>, peer: Seq<char>, now_ms: u64) -> PeerHealth {
    if !m.contains_key(peer) {
        PeerHealth::Stale
    } else {
        let age = if now_ms >= m[peer].last_rx_ms { now_ms - m[peer].last_rx_ms } else { 0 };
        if age < 3000 { PeerHealth::Healthy } else if age < 8000 { PeerHealth::Degraded } else { PeerHealth::Stale }
    }
}

/// Tracks liveness per peer id.
pub struct LivenessTracker {
    peers: StrMap<PeerState>,
}

impl LivenessTracker {
    /// The tracker's internal consistency.
    pub closed spec fn wf(&self) -> bool {
        self.peers.wf()
    }

    /// What the tracker knows, per peer id.
    pub closed spec fn view(&self) -> Map<Seq<char>, PeerView> {
        self.peers.view().map_values(|p: PeerState| peer_view(p))
    }

    /// An empty tracker.
    pub fn new() -> (t: Self)
        ensures
            t.wf(),
            t.view() == Map::<Seq<char>, PeerView>::empty(),
    {
        let t = LivenessTracker { peers: StrMap::new() };
        assert(t.view() =~= Map::<Seq<char>, PeerView>::empty());
        t
    }

    fn take_peer(&mut self, peer: &str) -> (p: Option<PeerState>)
        requires
            old(self).wf(),
        ensures
            final(self).wf(),
            final(self).view() == old(self).view().remove(peer@),
            match p {
                Some(p) => old(self).view().contains_key(peer@) && peer_view(p) == old(self).view()[peer@],
                None => !old(self).view().contains_key(peer@),
            },
    {
        let r = self.peers.remove(peer);
        assert(self.view() =~= old(self).view().remove(peer@));
        r
    }

    fn put_peer(&mut self, peer: &str, p: PeerState)
        requires
            old(self).wf(),
        ensures
            final(self).wf(),
            final(self).view() == old(self).view().insert(peer@, peer_view(p)),
    {
        let ghost before = self.view();
        self.peers.insert(peer.to_owned(), p);
        assert(self.view() =~= before.insert(peer@, peer_view(p)));
    }

    /// Record that heartbeat `seq` was sent to `peer` at `ts_ms`.
    pub fn on_heartbeat_sent(&mut self, peer: &str, _epoch: u64, seq: u32, ts_ms: u64)
        requires
            old(self).wf(),
        ensures
            final(self).wf(),
            final(self).view() == old(self).view().insert(peer@, after_sent(
                if old(self).view().contains_key(peer@) { old(self).view()[peer@] } else { fresh_peer(0, 0, 0) },
                seq, ts_ms)),
    {
        let mut p = match self.take_peer(peer) {
            Some(p) => p,
            None => {
                let p = PeerState { epoch: 0, last_rx_ms: 0, last_presence: 0, rtt_ms: None, pending: HashMap::new() };
                assert(peer_view(p).pending =~= Map::<u32, u64>::empty());
                p
            }
        };
        let ghost p0 = peer_view(p);
        if p.pending.len() > MAX_PENDING {
            p.pending.clear();
        }
        p.pending.insert(seq, ts_ms);
        assert(peer_view(p) == after_sent(p0, seq, ts_ms));
        self.put_peer(peer, p);
        assert(self.view() =~= old(self).view().insert(peer@, after_sent(
            if old(self).view().contains_key(peer@) { old(self).view()[peer@] } else { fresh_peer(0, 0, 0) },
            seq, ts_ms)));
    }

    /// Record a heartbeat from `peer` (epoch, sequence, presence byte) received
    /// at `now_ms`.
    pub fn on_heartbeat(&mut self, peer: &str, epoch: u64, seq: u32, _ts_ms: u64, now_ms: u64, state_byte: u8)
        requires
            old(self).wf(),
        ensures
            final(self).wf(),
            final(self).view() == old(self).view().insert(peer@, after_heard(
                if old(self).view().contains_key(peer@) { old(self).view()[peer@] } else { fresh_peer(epoch, now_ms, state_byte) },
                epoch, seq, now_ms, state_byte)),
            final(self).view().contains_key(peer@),
            final(self).view()[peer@].last_rx_ms == now_ms,
            final(self).view()[peer@].epoch == epoch,
            final(self).view()[peer@].last_presence == state_byte,
            health_spec(final(self).view(), peer@, now_ms) == PeerHealth::Healthy,
    {
        let mut p = match self.take_peer(peer) {
            Some(p) => p,
            None => {
                let p = PeerState { epoch, last_rx_ms: now_ms, last_presence: state_byte, rtt_ms: None, pending: HashMap::new() };
                assert(peer_view(p).pending =~= Map::<u32, u64>::empty());
                p
            }
        };
        let ghost p0 = peer_view(p);
        p.epoch = epoch;
        p.last_rx_ms = now_ms;
        p.last_presence = state_byte;
        if let Some(sent) = p.pending.remove(&seq) {
            let d: u64 = if now_ms >= sent { now_ms - sent } else { 0 };
            p.rtt_ms = Some(#[verifier::truncate] (d as u32));
            assert(peer_view(p).pending =~= p0.pending.remove(seq));
        } else {
            assert(peer_view(p).pending =~= p0.pending);
        }
        assert(peer_view(p) == after_heard(p0, epoch, seq, now_ms, state_byte));
        self.put_peer(peer, p);
        assert(self.view() =~= old(self).view().insert(peer@, after_heard(
            if old(self).view().contains_key(peer@) { old(self).view()[peer@] } else { fresh_peer(epoch, now_ms, state_byte) },
            epoch, seq, now_ms, state_byte)));
    }

    /// Health of `peer` at `now_ms`.
    pub fn health(&self, peer: &str, now_ms: u64) -> (h: PeerHealth)
        requires
            self.wf(),
        ensures
            h == health_spec(self.view(), peer@, now_ms),
    {
        match self.peers.get(peer) {
            None => PeerHealth::Stale,
            Some(p) => {
                let age: u64 = if now_ms >= p.last_rx_ms { now_ms - p.last_rx_ms } else { 0 };
                if age < 3_000 {
                    PeerHealth::Healthy
                } else if age < 8_000 {
                    PeerHealth::Degraded
                } else {
                    PeerHealth::Stale
                }
            }
        }
    }

    /// Last measured round-trip time to `peer`.
    pub fn rtt_ms(&self, peer: &str) -> (r: Option<u32>)
        requires
            self.wf(),
        ensures
            r == (if self.view().contains_key(peer@) { self.view()[peer@].rtt_ms } else { None }),
    {
        match self.peers.get(peer) {
            Some(p) => p.rtt_ms,
            None => None,
        }
    }

    /// Last presence byte heard from `peer` (0 when unknown).
    pub fn last_presence(&self, peer: &str) -> (b: u8)
        requires
            self.wf(),
        ensures
            b == (if self.view().contains_key(peer@) { self.view()[peer@].last_presence } else { 0 }),
    {
        match self.peers.get(peer) {
            Some(p) => p.last_presence,
            None => 0,
        }
    }

    /// When `peer` was last heard (0 when unknown).
    pub fn last_heard_ms(&self, peer: &str) -> (t: u64)
        requires
            self.wf(),
        ensures
            t == (if self.view().contains_key(peer@) { self.view()[peer@].last_rx_ms } else { 0 }),
    {
        match self.peers.get(peer) {
            Some(p) => p.last_rx_ms,
            None => 0,
        }
    }

    /// Record `new_epoch` for `peer`; true when a previously known nonzero
    /// epoch differs from it (the peer restarted its session).
    pub fn epoch_changed(&mut self, peer: &str, new_epoch: u64) -> (changed: bool)
        requires
            old(self).wf(),
        ensures
            final(self).wf(),
            ({
                let p = if old(self).view().contains_key(peer@) { old(self).view()[peer@] } else { fresh_peer(new_epoch, 0, 0) };
                &&& changed == (p.epoch != 0 && p.epoch != new_epoch)
                &&& final(self).view() == old(self).view().insert(peer@, PeerView { epoch: new_epoch, ..p })
            }),
    {
        let mut p = match self.take_peer(peer) {
            Some(p) => p,
            None => {
                let p = PeerState { epoch: new_epoch, last_rx_ms: 0, last_presence: 0, rtt_ms: None, pending: HashMap::new() };
                assert(peer_view(p).pending =~= Map::<u32, u64>::empty());
                p
            }
        };
        let ghost p0 = peer_view(p);
        let changed = p.epoch != 0 && p.epoch != new_epoch;
        p.epoch = new_epoch;
        assert(peer_view(p) == PeerView { epoch: new_epoch, ..p0 });
        self.put_peer(peer, p);
        changed
    }

    /// The ids of every tracked peer, each once.
    pub fn peer_ids(&self) -> (ids: Vec<String>)
        requires
            self.wf(),
        ensures
            string_views(ids@).to_set() == self.view().dom(),
            string_views(ids@).no_duplicates(),
    {
        proof { self.peers.lemma_keys(); }
        let ids = self.peers.keys();
        assert(self.view().dom() =~= self.peers.view().dom());
        ids
    }

    /// Forget `peer`.
    pub fn remove_peer(&mut self, peer: &str)
        requires
            old(self).wf(),
        ensures
            final(self).wf(),
            final(self).view() == old(self).view().remove(peer@),
    {
        let _ = self.take_peer(peer);
    }
}

/// Every heartbeat refreshes its sender, known or not: afterwards the peer is
/// tracked, was last heard at the receive time, carries the heartbeat's epoch
/// and presence byte and is healthy at that moment; every other peer's entry
/// is unchanged.
pub proof fn lemma_heartbeat_refreshes_sender(
    m: Map<Seq<char>, PeerView>,
    peer: Seq<char>,
    epoch: u64,
    seq: u32,
    now_ms: u64,
    state: u8,
)
    ensures
        ({
            let base = if m.contains_key(peer) { m[peer] } else { fresh_peer(epoch, now_ms, state) };
            let m2 = m.insert(peer, after_heard(base, epoch, seq, now_ms, state));
            &&& m2.contains_key(peer)
            &&& m2[peer].last_rx_ms == now_ms
            &&& m2[peer].epoch == epoch
            &&& m2[peer].last_presence == state
            &&& health_spec(m2, peer, now_ms) == PeerHealth::Healthy
            &&& forall|q: Seq<char>| q != peer ==> (m2.contains_key(q) == m.contains_key(q)
                    && (m.contains_key(q) ==> #[trigger] m2[q] == m[q]))
        }),
{
}

/// A heartbeat received right after another keeps the peer healthy, ages to
/// degraded at 3 s and to stale at 8 s: for every tracker state, peer and
/// receive time.
pub proof fn lemma_health_follows_age(m: Map<Seq<char>, PeerView>, peer: Seq<char>, heard: u64, now: u64)
    requires
        m.contains_key(peer),
        m[peer].last_rx_ms == heard,
        now >= heard,
    ensures
        now - heard < 3000 ==> health_spec(m, peer, now) == PeerHealth::Healthy,
        3000 <= now - heard < 8000 ==> health_spec(m, peer, now) == PeerHealth::Degraded,
        now - heard >= 8000 ==> health_spec(m, peer, now) == PeerHealth::Stale,
{
}

/// Echo law: sending heartbeat `seq` at `sent` and hearing it echoed at
/// `now >= sent` records a round-trip time of `now - sent` (when it fits in
/// 32 bits) and clears that pending entry.
pub proof fn lemma_rtt_from_echo(p: PeerView, seq: u32, sent: u64, epoch: u64, now: u64, state: u8)
    requires
        now >= sent,
        now - sent <= u32::MAX,
    ensures
        after_heard(after_sent(p, seq, sent), epoch, seq, now, state).rtt_ms == Some((now - sent) as u32),
        !after_heard(after_sent(p, seq, sent), epoch, seq, now, state).pending.contains_key(seq),
{
}


/// Sending a heartbeat only notes it as pending: the send time is recorded
/// under its sequence number, the other pending entries stay (unless more
/// than the pending limit had piled up, which clears them), and what was
/// heard from the peer (epoch, last receive time, presence, round-trip time)
/// is unchanged.
pub proof fn lemma_send_records_pending(p: PeerView, seq: u32, ts_ms: u64)
    ensures
        after_sent(p, seq, ts_ms).pending.contains_key(seq),
        after_sent(p, seq, ts_ms).pending[seq] == ts_ms,
        after_sent(p, seq, ts_ms).epoch == p.epoch,
        after_sent(p, seq, ts_ms).last_rx_ms == p.last_rx_ms,
        after_sent(p, seq, ts_ms).last_presence == p.last_presence,
        after_sent(p, seq, ts_ms).rtt_ms == p.rtt_ms,
        p.pending.len() <= MAX_PENDING ==> forall|s: u32| s != seq && #[trigger] p.pending.contains_key(s)
            ==> after_sent(p, seq, ts_ms).pending.contains_key(s) && after_sent(p, seq, ts_ms).pending[s] == p.pending[s],
{
}

} // verus!
