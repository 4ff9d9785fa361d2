//! Peers seen on the multicast group: what a discovery beacon announced,
//! when the peer was last heard, and its public key in hex; and the
//! discovery registry that keeps them.
use vstd::prelude::*;
use vstd::utf8::encode_utf8;
use crate::idmap::IdMap;

verus! {

/// Seconds of silence after which a peer is no longer active.
pub const PEER_TIMEOUT_SECS: u64 = 30;
/// Seconds between discovery beacons.
pub const BEACON_INTERVAL_SECS: u64 = 5;

/// The lowercase hex digit (ASCII) for a nibble.
pub open spec fn hex_digit(n: u8) -> u8 {
    if n < 10 { (0x30 + n) as u8 } else { (0x57 + n) as u8 }
}

/// Lowercase hex encoding (ASCII), two digits per byte, high nibble first.
pub open spec fn hex_encode_spec(b: Seq<u8>) -> Seq<u8>
    decreases b.len(),
{
    if b.len() == 0 {
        Seq::empty()
    } else {
        hex_encode_spec(b.drop_last()).push(hex_digit(b.last() / 16)).push(hex_digit(b.last() % 16))
    }
}

/// The value of an ASCII hex digit of either case.
pub open spec fn hex_value(c: u8) -> Option<u8> {
    if 0x30 <= c <= 0x39 {
        Some((c - 0x30) as u8)
    } else if 0x61 <= c <= 0x66 {
        Some((c - 0x57) as u8)
    } else if 0x41 <= c <= 0x46 {
        Some((c - 0x37) as u8)
    } else {
        None
    }
}

/// Hex decoding of ASCII text: `None` for an odd length or a non-hex digit.
pub open spec fn hex_decode_spec(s: Seq<u8>) -> Option<Seq<u8>>
    decreases s.len(),
{
    if s.len() % 2 != 0 {
        None
    } else if s.len() == 0 {
        Some(Seq::empty())
    } else {
        match (hex_decode_spec(s.drop_last().drop_last()), hex_value(s[s.len() - 2]), hex_value(s.last())) {
            (Some(p), Some(h), Some(l)) => Some(p.push((h * 16 + l) as u8)),
            _ => None,
        }
    }
}

fn hex_digit_exec(n: u8) -> (c: u8)
    requires
        n < 16,
    ensures
        c == hex_digit(n),
        c < 128,
{
    if n < 10 { 0x30u8 + n } else { 0x57u8 + n }
}

/// Lowercase hex encoding of bytes.
pub fn hex_encode(b: &[u8]) -> (s: String)
    ensures
        s@ == crate::primitives::ascii_chars(hex_encode_spec(b@)),
        encode_utf8(s@) == hex_encode_spec(b@),
{
    let mut v: Vec<u8> = Vec::new();
    let mut i: usize = 0;
    while i < b.len()
        invariant
            i <= b@.len(),
            v@ == hex_encode_spec(b@.take(i as int)),
            forall|j: int| 0 <= j < v@.len() ==> v@[j] < 128,
        decreases b.len() - i,
    {
        let x = b[i];
        let hi = hex_digit_exec(x / 16);
        let lo = hex_digit_exec(x % 16);
        v.push(hi);
        v.push(lo);
        proof {
            assert(b@.take(i + 1).drop_last() =~= b@.take(i as int));
        }
        i = i + 1;
    }
    assert(b@.take(i as int) =~= b@);
    let ghost bytes = v@;
    let s = crate::primitives::string_from_ascii(v);
    proof {
        let cs = crate::primitives::ascii_chars(bytes);
        assert(vstd::utf8::is_ascii_chars(cs));
        vstd::utf8::is_ascii_chars_encode_utf8(cs);
        assert(encode_utf8(cs) =~= bytes);
    }
    s
}

fn hex_value_exec(c: u8) -> (r: Option<u8>)
    ensures
        r == hex_value(c),
{
    if 0x30 <= c && c <= 0x39 {
        Some(c - 0x30)
    } else if 0x61 <= c && c <= 0x66 {
        Some(c - 0x57)
    } else if 0x41 <= c && c <= 0x46 {
        Some(c - 0x37)
    } else {
        None
    }
}

/// Decode 64 hex digits into a 32-byte key; `None` for anything else.
pub fn hex_decode_32(s: &str) -> (r: Option<[u8; 32]>)
    ensures
        match r {
            Some(k) => hex_decode_spec(encode_utf8(s@)) == Some(k@),
            None => !(hex_decode_spec(encode_utf8(s@)) matches Some(b) && b.len() == 32),
        },
{
    let chars = s.as_bytes();
    let n = chars.len();
    if n % 2 != 0 {
        return None;
    }
    let mut out: Vec<u8> = Vec::new();
    let mut i: usize = 0;
    while i < n
        invariant
            n == chars@.len(),
            chars@ == encode_utf8(s@),
            n % 2 == 0,
            i % 2 == 0,
            i <= n,
            hex_decode_spec(chars@.take(i as int)) == Some(out@),
        decreases n - i,
    {
        let h = hex_value_exec(chars[i]);
        let l = hex_value_exec(chars[i + 1]);
        proof {
            let t = chars@.take(i + 2);
            assert(t.drop_last().drop_last() =~= chars@.take(i as int));
            assert(t[t.len() - 2] == chars@[i as int]);
            assert(t.last() == chars@[i + 1]);
        }
        match (h, l) {
            (Some(hv), Some(lv)) => {
                out.push(hv * 16 + lv);
            }
            _ => {
                proof { lemma_hex_decode_prefix(chars@, (i + 2) as int); }
                return None;
            }
        }
        i = i + 2;
    }
    assert(chars@.take(n as int) =~= chars@);
    if out.len() != 32 {
        return None;
    }
    let mut k = [0u8; 32];
    let mut j: usize = 0;
    while j < 32
        invariant
            j <= 32,
            out@.len() == 32,
            forall|t: int| 0 <= t < j ==> k@[t] == out@[t],
        decreases 32 - j,
    {
        k[j] = out[j];
        j = j + 1;
    }
    assert(k@ =~= out@);
    Some(k)
}

/// A failure in an even prefix makes the whole decoding fail.
proof fn lemma_hex_decode_prefix(s: Seq<u8>, i: int)
    requires
        0 <= i <= s.len(),
        i % 2 == 0,
        s.len() % 2 == 0,
        hex_decode_spec(s.take(i)) is None,
    ensures
        hex_decode_spec(s) is None,
    decreases s.len() - i,
{
    if i < s.len() {
        let t = s.take(i + 2);
        assert(t.drop_last().drop_last() =~= s.take(i));
        lemma_hex_decode_prefix(s, i + 2);
    } else {
        assert(s.take(i) =~= s);
    }
}

/// A peer as mathematical values.
pub struct PeerView {
    pub device_id: u32,
    pub device_name: Seq<char>,
    pub address: Seq<char>,
    pub last_seen: u64,
    pub channel: u8,
    pub public_key: Option<Seq<char>>,
    pub key_exchanged: bool,
}

/// A peer and its encryption state.
pub struct PeerInfo {
    pub device_id: u32,
    pub device_name: String,
    /// Socket address, as text.
    pub address: String,
    /// Unix seconds when last heard.
    pub last_seen: u64,
    pub channel: u8,
    /// X25519 public key, hex encoded.
    pub public_key: Option<String>,
    /// Whether key exchange with this peer completed.
    pub key_exchanged: bool,
}

impl View for PeerInfo {
    type V = PeerView;

    open spec fn view(&self) -> PeerView {
        PeerView {
            device_id: self.device_id,
            device_name: self.device_name@,
            address: self.address@,
            last_seen: self.last_seen,
            channel: self.channel,
            public_key: match self.public_key { Some(k) => Some(k@), None => None },
            key_exchanged: self.key_exchanged,
        }
    }
}

/// Active: heard less than the timeout before `now` (seconds, computed
/// modulo 2^64, so a peer stamped after `now` counts as silent).
pub open spec fn peer_active(p: PeerView, now: u64) -> bool {
    (if now >= p.last_seen { (now - p.last_seen) as int } else { now - p.last_seen + 0x1_0000_0000_0000_0000 }) < PEER_TIMEOUT_SECS
}

/// The decoded public key of a peer, when it is exactly 32 bytes of hex.
pub open spec fn peer_key(p: PeerView) -> Option<Seq<u8>> {
    match p.public_key {
        Some(h) => match hex_decode_spec(encode_utf8(h)) {
            Some(b) => if b.len() == 32 { Some(b) } else { None },
            None => None,
        },
        None => None,
    }
}

impl PeerInfo {
    /// An independent copy.
    pub fn duplicate(&self) -> (c: Self)
        ensures
            c@ == self@,
    {
        PeerInfo {
            device_id: self.device_id,
            device_name: self.device_name.clone(),
            address: self.address.clone(),
            last_seen: self.last_seen,
            channel: self.channel,
            public_key: match &self.public_key {
                Some(k) => Some(k.clone()),
                None => None,
            },
            key_exchanged: self.key_exchanged,
        }
    }

    /// Whether the peer was heard within the timeout before `now_secs`.
    pub fn is_active_at(&self, now_secs: u64) -> (b: bool)
        ensures
            b == peer_active(self@, now_secs),
    {
        now_secs.wrapping_sub(self.last_seen) < PEER_TIMEOUT_SECS
    }

    /// Whether the peer was heard within the timeout, reading the clock.
    pub fn is_active(&self) -> (b: bool)
        ensures
            exists|now: u64| b == peer_active(self@, now),
    {
        self.is_active_at(crate::wire::now_ms() / 1000)
    }

    /// The peer's public key as 32 bytes, when it is valid hex of that size.
    pub fn get_public_key_bytes(&self) -> (r: Option<[u8; 32]>)
        ensures
            match r {
                Some(k) => peer_key(self@) == Some(k@),
                None => peer_key(self@) is None,
            },
    {
        match &self.public_key {
            Some(h) => hex_decode_32(h.as_str()),
            None => None,
        }
    }
}

/// Hex encoding round-trips through decoding.
pub proof fn lemma_hex_round_trip(b: Seq<u8>)
    ensures
        hex_decode_spec(hex_encode_spec(b)) == Some(b),
        hex_encode_spec(b).len() == 2 * b.len(),
    decreases b.len(),
{
    if b.len() > 0 {
        lemma_hex_round_trip(b.drop_last());
        let e = hex_encode_spec(b);
        let x = b.last();
        assert(e.drop_last().drop_last() =~= hex_encode_spec(b.drop_last()));
        let h = x / 16;
        let l = x % 16;
        assert(hex_value(hex_digit(h)) == Some(h));
        assert(hex_value(hex_digit(l)) == Some(l));
        assert(e[e.len() - 2] == hex_digit(h));
        assert((h * 16 + l) as u8 == x);
        assert(b.drop_last().push(x) =~= b);
    }
}

/// The peers of `order` active at `now`, in that order.
pub open spec fn active_peers(order: Seq<u32>, peers: Map<u32, PeerView>, now: u64) -> Seq<PeerView> {
    order.filter(|k: u32| peer_active(peers[k], now)).map_values(|k: u32| peers[k])
}

/// The peers heard on the multicast group, keyed by device id.
pub struct DiscoveryService {
    peers: IdMap<PeerInfo>,
    device_id: u32,
}

impl DiscoveryService {
    /// The known peers.
    pub closed spec fn peers_spec(&self) -> Map<u32, PeerView> {
        self.peers.view().map_values(|p: PeerInfo| p@)
    }

    /// The order peers were first heard in.
    pub closed spec fn peer_order(&self) -> Seq<u32> {
        self.peers.key_seq()
    }

    /// Our own device id.
    pub closed spec fn own_id(&self) -> u32 {
        self.device_id
    }

    /// Internal consistency.
    pub closed spec fn wf(&self) -> bool {
        self.peers.wf()
    }

    /// The order holds each known peer's device id exactly once.
    pub proof fn lemma_order_lists_each_peer_once(&self)
        requires
            self.wf(),
        ensures
            self.peer_order().to_set() == self.peers_spec().dom(),
            self.peer_order().no_duplicates(),
    {
        self.peers.lemma_keys();
        assert(self.peer_order().to_set() =~= self.peers_spec().dom());
    }

    /// A known peer is listed among the active peers exactly when it is
    /// active.
    pub proof fn lemma_listed_iff_active(&self, id: u32, now: u64)
        requires
            self.wf(),
            self.peers_spec().contains_key(id),
        ensures
            active_peers(self.peer_order(), self.peers_spec(), now).contains(self.peers_spec()[id])
                <==> peer_active(self.peers_spec()[id], now),
    {
        let ks = self.peer_order();
        let m = self.peers_spec();
        let pred = |k: u32| peer_active(m[k], now);
        let f = ks.filter(pred);
        let out = active_peers(ks, m, now);
        self.lemma_order_lists_each_peer_once();
        assert(ks.to_set().contains(id));
        let j = choose|j: int| 0 <= j < ks.len() && ks[j] == id;
        if peer_active(m[id], now) {
            ks.lemma_filter_contains(pred, j);
            let t = choose|t: int| 0 <= t < f.len() && f[t] == id;
            assert(out[t] == m[id]);
        }
        if out.contains(m[id]) {
            let t = choose|t: int| 0 <= t < out.len() && out[t] == m[id];
            ks.lemma_filter_pred(pred, t);
            assert(out[t] == m[f[t]]);
        }
    }

    /// An empty registry for our device.
    pub fn new(device_id: u32) -> (d: Self)
        ensures
            d.wf(),
            d.own_id() == device_id,
            d.peers_spec() == Map::<u32, PeerView>::empty(),
            d.peer_order() == Seq::<u32>::empty(),
    {
        let d = DiscoveryService { peers: IdMap::new(), device_id };
        assert(d.peers_spec() =~= Map::<u32, PeerView>::empty());
        d
    }

    /// Add or replace a peer under its device id.
    pub fn update_peer(&mut self, peer: PeerInfo)
        requires
            old(self).wf(),
        ensures
            final(self).wf(),
            final(self).own_id() == old(self).own_id(),
            final(self).peers_spec() == old(self).peers_spec().insert(peer@.device_id, peer@),
            old(self).peers_spec().contains_key(peer@.device_id) ==> final(self).peer_order() == old(self).peer_order(),
            !old(self).peers_spec().contains_key(peer@.device_id) ==> final(self).peer_order() == old(self).peer_order().push(peer@.device_id),
    {
        let ghost p0 = self.peers_spec();
        let ghost pv = peer@;
        self.peers.insert(peer.device_id, peer);
        assert(self.peers_spec() =~= p0.insert(pv.device_id, pv));
    }

    /// Copies of the peers active at `now_secs`, in the order first heard.
    pub fn get_peers_at(&self, now_secs: u64) -> (ps: Vec<PeerInfo>)
        requires
            self.wf(),
        ensures
            ps@.map_values(|p: PeerInfo| p@) == active_peers(self.peer_order(), self.peers_spec(), now_secs),
    {
        let ghost ks = self.peer_order();
        let ghost pred = |k: u32| peer_active(self.peers_spec()[k], now_secs);
        let mut out: Vec<PeerInfo> = Vec::new();
        let mut i: usize = 0;
        while i < self.peers.len()
            invariant
                self.wf(),
                ks == self.peer_order(),
                i <= ks.len(),
                pred == (|k: u32| peer_active(self.peers_spec()[k], now_secs)),
                out@.map_values(|p: PeerInfo| p@) == ks.take(i as int).filter(pred).map_values(|k: u32| self.peers_spec()[k]),
            decreases ks.len() - i,
        {
            let (k, p) = self.peers.entry_at(i);
            proof {
                reveal(Seq::filter);
                assert(ks.take(i + 1).drop_last() =~= ks.take(i as int));
                assert(ks.take(i + 1).last() == k);
                assert(self.peers_spec()[k] == p@);
            }
            if p.is_active_at(now_secs) {
                let ghost before = out@;
                out.push(p.duplicate());
                assert(out@.map_values(|p: PeerInfo| p@) =~= before.map_values(|p: PeerInfo| p@).push(p@));
            }
            i = i + 1;
        }
        assert(ks.take(i as int) =~= ks);
        out
    }

    /// Copies of the active peers, reading the clock.
    pub fn get_peers(&self) -> (ps: Vec<PeerInfo>)
        requires
            self.wf(),
        ensures
            exists|now: u64| ps@.map_values(|p: PeerInfo| p@) == #[trigger] active_peers(self.peer_order(), self.peers_spec(), now),
    {
        self.get_peers_at(crate::wire::now_ms() / 1000)
    }

    /// A copy of the peer with this device id.
    pub fn get_peer(&self, device_id: u32) -> (r: Option<PeerInfo>)
        requires
            self.wf(),
        ensures
            match r {
                Some(p) => self.peers_spec().contains_key(device_id) && p@ == self.peers_spec()[device_id],
                None => !self.peers_spec().contains_key(device_id),
            },
    {
        match self.peers.get(device_id) {
            Some(p) => Some(p.duplicate()),
            None => None,
        }
    }

    /// Forget the peers no longer active at `now_secs` (one pass of the
    /// discovery clean-up loop).
    pub fn prune_at(&mut self, now_secs: u64)
        requires
            old(self).wf(),
        ensures
            final(self).wf(),
            final(self).own_id() == old(self).own_id(),
            final(self).peers_spec() == old(self).peers_spec().restrict(
                old(self).peers_spec().dom().filter(|k: u32| peer_active(old(self).peers_spec()[k], now_secs))),
    {
        let ghost p0 = self.peers_spec();
        proof {
            self.peers.lemma_keys();
            assert forall|x: u32| #[trigger] self.peers_spec().contains_key(x) implies self.peer_order().contains(x) by {
                assert(self.peers.view().dom().contains(x));
            }
        }
        let mut i: usize = 0;
        while i < self.peers.len()
            invariant
                self.wf(),
                self.own_id() == old(self).own_id(),
                self.peers_spec().dom().subset_of(p0.dom()),
                forall|k: u32| #[trigger] self.peers_spec().contains_key(k) ==> self.peers_spec()[k] == p0[k],
                forall|k: u32| p0.contains_key(k) && peer_active(p0[k], now_secs) ==> #[trigger] self.peers_spec().contains_key(k),
                forall|j: int| 0 <= j < i ==> peer_active(p0[#[trigger] self.peer_order()[j]], now_secs),
                i <= self.peer_order().len(),
                forall|k: u32| #[trigger] self.peers_spec().contains_key(k) ==> self.peer_order().contains(k),
            decreases self.peer_order().len() - i,
        {
            let keep = {
                let (k, p) = self.peers.entry_at(i);
                proof {
                    assert(self.peers_spec()[k] == p@);
                    assert(self.peers_spec().contains_key(k));
                    assert(p0[k] == p@);
                }
                p.is_active_at(now_secs)
            };
            if keep {
                i = i + 1;
            } else {
                let ghost before = *self;
                let (k, _) = self.peers.remove_at(i);
                proof {
                    assert(self.peers_spec() =~= before.peers_spec().remove(k));
                    assert(!peer_active(p0[k], now_secs));
                    self.peers.lemma_keys();
                    before.peers.lemma_keys();
                    assert forall|j: int| 0 <= j < i implies peer_active(p0[#[trigger] self.peer_order()[j]], now_secs) by {
                        assert(self.peer_order()[j] == before.peer_order()[j]);
                    }
                    assert forall|x: u32| #[trigger] self.peers_spec().contains_key(x) implies self.peer_order().contains(x) by {
                        assert(self.peers.view().dom().contains(x));
                    }
                }
            }
        }
        proof {
            self.peers.lemma_keys();
            let target = p0.restrict(p0.dom().filter(|k: u32| peer_active(p0[k], now_secs)));
            assert forall|k: u32| #[trigger] self.peers_spec().contains_key(k) implies peer_active(p0[k], now_secs) by {
                assert(self.peer_order().contains(k));
                let j = choose|j: int| 0 <= j < self.peer_order().len() && self.peer_order()[j] == k;
                assert(peer_active(p0[self.peer_order()[j]], now_secs));
            }
            assert(self.peers_spec() =~= target);
        }
    }
}

} // verus!
