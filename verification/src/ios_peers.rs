//! The iOS peer table: peers heard on the multicast group, keyed by device
//! id, forgotten 30 seconds after they were last heard.
use vstd::prelude::*;
use crate::idmap::IdMap;

verus! {

/// Multicast group.
pub const MULTICAST_ADDR: &'static str = "239.255.42.42";
/// Multicast port.
pub const MULTICAST_PORT: u16 = 5555;
/// A peer not heard for this long is dropped (ms).
pub const PEER_TIMEOUT_MS: u64 = 30_000;

/// A peer.
#[derive(Debug, Clone)]
pub struct PeerInfo {
    pub device_id: u32,
    pub device_name: String,
    /// Socket address, as text.
    pub address: String,
    pub channel: u8,
    /// Unix ms when last heard.
    pub last_seen: u64,
}

/// A peer as plain values.
pub struct PeerRecord {
    pub device_id: u32,
    pub device_name: Seq<char>,
    pub address: Seq<char>,
    pub channel: u8,
    pub last_seen: u64,
}

impl PeerInfo {
    /// The peer as plain values.
    pub open spec fn view(&self) -> PeerRecord {
        PeerRecord {
            device_id: self.device_id,
            device_name: self.device_name@,
            address: self.address@,
            channel: self.channel,
            last_seen: self.last_seen,
        }
    }

    /// An independent copy.
    pub fn duplicate(&self) -> (p: PeerInfo)
        ensures
            p.view() == self.view(),
    {
        PeerInfo {
            device_id: self.device_id,
            device_name: self.device_name.clone(),
            address: self.address.clone(),
            channel: self.channel,
            last_seen: self.last_seen,
        }
    }
}

/// Heard within the timeout at `now`; a time after `now` does not count.
pub open spec fn is_recent(last_seen: u64, now: u64) -> bool {
    last_seen <= now && now - last_seen < PEER_TIMEOUT_MS
}

/// The peers of `m` heard recently at `now`.
pub open spec fn recent_peers(m: Map<u32, PeerRecord>, now: u64) -> Map<u32, PeerRecord> {
    Map::new(|k: u32| m.dom().contains(k) && is_recent(m[k].last_seen, now), |k: u32| m[k])
}

/// The peers, by device id.
pub struct PeerTable {
    peers: IdMap<PeerInfo>,
}

impl PeerTable {
    /// The peers as plain values.
    pub closed spec fn view(&self) -> Map<u32, PeerRecord> {
        self.peers.view().map_values(|p: PeerInfo| p.view())
    }

    /// Each peer is stored under its own id.
    pub closed spec fn wf(&self) -> bool {
        &&& self.peers.wf()
        &&& forall|k: u32| #[trigger] self.peers.view().dom().contains(k) ==> self.peers.view()[k].device_id == k
    }

    /// No peers.
    pub fn new() -> (t: Self)
        ensures
            t.wf(),
            t.view() == Map::<u32, PeerRecord>::empty(),
    {
        let t = PeerTable { peers: IdMap::new() };
        assert(t.view() =~= Map::<u32, PeerRecord>::empty());
        t
    }

    /// Record `peer` under its id, replacing an earlier entry.
    pub fn update_peer(&mut self, peer: PeerInfo)
        requires
            old(self).wf(),
        ensures
            final(self).wf(),
            final(self).view() == old(self).view().insert(peer.device_id, peer.view()),
    {
        let ghost p = peer;
        self.peers.insert(peer.device_id, peer);
        assert(self.view() =~= old(self).view().insert(p.device_id, p.view()));
    }

    /// Forget a peer.
    pub fn remove_peer(&mut self, device_id: u32)
        requires
            old(self).wf(),
        ensures
            final(self).wf(),
            final(self).view() == old(self).view().remove(device_id),
    {
        let _ = self.peers.remove(device_id);
        assert(self.view() =~= old(self).view().remove(device_id));
    }

    /// Drop the peers not heard recently at `now_ms` and return copies of
    /// the rest, each once.
    pub fn get_peers(&mut self, now_ms: u64) -> (v: Vec<PeerInfo>)
        requires
            old(self).wf(),
        ensures
            final(self).wf(),
            final(self).view() == recent_peers(old(self).view(), now_ms),
            v@.len() == final(self).view().len(),
            forall|i: int| 0 <= i < v@.len() ==> final(self).view().dom().contains(#[trigger] v@[i].device_id)
                && final(self).view()[v@[i].device_id] == v@[i].view(),
            forall|i: int, j: int| 0 <= i < v@.len() && 0 <= j < v@.len() && i != j
                ==> #[trigger] v@[i].device_id != #[trigger] v@[j].device_id,
    {
        let ghost m = self.view();
        let ghost ks = self.peers.key_seq();
        proof { self.peers.lemma_keys(); }
        let n = self.peers.len();
        let mut kept: IdMap<PeerInfo> = IdMap::new();
        let mut out: Vec<PeerInfo> = Vec::new();
        let mut i: usize = 0;
        while i < n
            invariant
                self.wf(),
                self.view() == m,
                self.peers.key_seq() == ks,
                ks.no_duplicates(),
                n == ks.len(),
                self.peers.view().dom() == ks.to_set(),
                i <= n,
                kept.wf(),
                kept.view().map_values(|p: PeerInfo| p.view()) == Map::new(
                    |k: u32| ks.take(i as int).contains(k) && is_recent(m[k].last_seen, now_ms),
                    |k: u32| m[k],
                ),
                forall|k: u32| #[trigger] kept.view().dom().contains(k) ==> kept.view()[k].device_id == k,
                forall|k: u32| #[trigger] kept.view().dom().contains(k) ==> ks.take(i as int).contains(k),
                out@.len() == kept.view().len(),
                forall|j: int| 0 <= j < out@.len() ==> kept.view().dom().contains(#[trigger] out@[j].device_id)
                    && m[out@[j].device_id] == out@[j].view(),
                forall|a: int, b: int| 0 <= a < out@.len() && 0 <= b < out@.len() && a != b
                    ==> #[trigger] out@[a].device_id != #[trigger] out@[b].device_id,
            decreases n - i,
        {
            let (k, p) = self.peers.entry_at(i);
            let ghost t0 = ks.take(i as int);
            let ghost t1 = ks.take(i + 1);
            proof {
                assert forall|x: u32| t1.contains(x) <==> (t0.contains(x) || x == k) by {
                    if t1.contains(x) {
                        let j = choose|j: int| 0 <= j < t1.len() && #[trigger] t1[j] == x;
                        if j < i {
                            assert(t0[j] == x);
                        }
                    }
                    if t0.contains(x) {
                        let j = choose|j: int| 0 <= j < t0.len() && #[trigger] t0[j] == x;
                        assert(t1[j] == x);
                    }
                    if x == k {
                        assert(t1[i as int] == x);
                    }
                }
                assert(!t0.contains(k)) by {
                    if t0.contains(k) {
                        let j = choose|j: int| 0 <= j < t0.len() && #[trigger] t0[j] == k;
                        assert(ks[j] == ks[i as int]);
                    }
                }
                kept.lemma_keys();
                assert(self.peers.view().dom().contains(k));
                assert(m[k] == p.view());
            }
            if p.last_seen <= now_ms && now_ms - p.last_seen < PEER_TIMEOUT_MS {
                let c1 = p.duplicate();
                let c2 = p.duplicate();
                let ghost before_out = out@;
                let ghost before_kept = kept.view();
                kept.insert(k, c1);
                out.push(c2);
                proof {
                    kept.lemma_keys();
                    assert(!before_kept.dom().contains(k));
                    assert(kept.view() == before_kept.insert(k, c1));
                    assert(kept.view().len() == before_kept.len() + 1) by {
                        assert(kept.view().dom() =~= before_kept.dom().insert(k));
                    }
                    let target = Map::new(
                        |x: u32| t1.contains(x) && is_recent(m[x].last_seen, now_ms),
                        |x: u32| m[x],
                    );
                    let before_target = Map::new(
                        |x: u32| t0.contains(x) && is_recent(m[x].last_seen, now_ms),
                        |x: u32| m[x],
                    );
                    let now_mv = kept.view().map_values(|q: PeerInfo| q.view());
                    let before_mv = before_kept.map_values(|q: PeerInfo| q.view());
                    assert(before_mv == before_target);
                    assert forall|x: u32| now_mv.dom().contains(x) == target.dom().contains(x) by {
                        if x != k {
                            assert(kept.view().dom().contains(x) == before_kept.dom().contains(x));
                            assert(before_mv.dom().contains(x) == before_target.dom().contains(x));
                        }
                    }
                    assert forall|x: u32| #[trigger] target.dom().contains(x) implies now_mv[x] == target[x] by {
                        if x == k {
                            assert(kept.view()[k] == c1);
                        } else {
                            assert(kept.view()[x] == before_kept[x]);
                            assert(before_mv[x] == before_target[x]);
                        }
                    }
                    assert(now_mv =~= target);
                    assert forall|a: int, b: int| 0 <= a < out@.len() && 0 <= b < out@.len() && a != b
                        implies #[trigger] out@[a].device_id != #[trigger] out@[b].device_id by {
                        if a < before_out.len() && b < before_out.len() {
                            assert(out@[a] == before_out[a] && out@[b] == before_out[b]);
                        } else if a < before_out.len() {
                            assert(out@[a] == before_out[a]);
                            assert(before_kept.dom().contains(out@[a].device_id));
                        } else {
                            assert(out@[b] == before_out[b]);
                            assert(before_kept.dom().contains(out@[b].device_id));
                        }
                    }
                }
            } else {
                proof {
                    assert(kept.view().map_values(|q: PeerInfo| q.view()) =~= Map::new(
                        |x: u32| t1.contains(x) && is_recent(m[x].last_seen, now_ms),
                        |x: u32| m[x],
                    ));
                }
            }
            i = i + 1;
        }
        proof {
            assert(ks.take(n as int) =~= ks);
            assert(kept.view().map_values(|q: PeerInfo| q.view()) =~= recent_peers(m, now_ms));
        }
        self.peers = kept;
        proof {
            assert(self.view().dom() =~= kept.view().dom());
        }
        out
    }
}

impl Default for PeerTable {
    fn default() -> (t: Self)
        ensures
            t.wf(),
            t.view() == Map::<u32, PeerRecord>::empty(),
    {
        Self::new()
    }
}

} // verus!
