//! The decisions of the multicast transport: which beacons to send, how an
//! outgoing audio frame is packed (encrypted with the first peer key when
//! encryption is on), and what a received packet does to the peer table,
//! the per-peer keys and the audio stream. Sockets, timers and tasks live
//! with the caller, which hands each received packet to
//! [`TransportCore::on_packet_at`] and sends what the core builds.
use vstd::prelude::*;
use crate::idmap::IdMap;
use crate::packet::{Packet, PacketType, PacketTypeView, sealed};
use crate::peers::{PeerInfo, PeerView, hex_encode, hex_encode_spec, peer_active, active_peers};
use crate::crypto::{CryptoEngine, aes256gcm_seal, derive_key_spec, AES_GCM_P_MAX};
use crate::primitives::ascii_chars;

verus! {

/// Default multicast group.
pub const DEFAULT_MULTICAST_ADDR: &'static str = "239.255.42.42";
/// Default multicast port.
pub const DEFAULT_MULTICAST_PORT: u16 = 5555;
/// Lowest channel.
pub const MIN_CHANNEL: u8 = 1;
/// Highest channel.
pub const MAX_CHANNEL: u8 = 16;
/// Bytes in front of encrypted audio: 12-byte nonce and 16-byte tag.
pub const AUDIO_CRYPTO_HEADER: usize = 28;

/// Transport configuration.
pub struct TransportConfig {
    /// Multicast address.
    pub multicast_addr: String,
    /// Pick a random port each session.
    pub use_random_port: bool,
    /// Port used when not random.
    pub fixed_port: u16,
    /// Encrypt audio.
    pub encryption_enabled: bool,
}

impl TransportConfig {
    /// The defaults: the standard group, a random port, encryption on.
    pub fn default_config() -> (c: Self)
        ensures
            c.multicast_addr@ == DEFAULT_MULTICAST_ADDR@,
            c.use_random_port,
            c.fixed_port == DEFAULT_MULTICAST_PORT,
            c.encryption_enabled,
    {
        TransportConfig {
            multicast_addr: DEFAULT_MULTICAST_ADDR.to_owned(),
            use_random_port: true,
            fixed_port: DEFAULT_MULTICAST_PORT,
            encryption_enabled: true,
        }
    }

    /// An independent copy.
    pub fn duplicate(&self) -> (c: Self)
        ensures
            c.multicast_addr@ == self.multicast_addr@,
            c.use_random_port == self.use_random_port,
            c.fixed_port == self.fixed_port,
            c.encryption_enabled == self.encryption_enabled,
    {
        TransportConfig {
            multicast_addr: self.multicast_addr.clone(),
            use_random_port: self.use_random_port,
            fixed_port: self.fixed_port,
            encryption_enabled: self.encryption_enabled,
        }
    }
}

/// `channel` clamped to the valid range.
pub open spec fn clamp_channel(c: u8) -> u8 {
    if c < MIN_CHANNEL { MIN_CHANNEL } else if c > MAX_CHANNEL { MAX_CHANNEL } else { c }
}

/// The audio payload sent for `audio`: with encryption on and a first peer
/// key installed, `nonce || tag || ciphertext`; otherwise the audio itself.
pub open spec fn outgoing_payload(enc: bool, first_key: Option<Seq<u8>>, nonce: Seq<u8>, audio: Seq<u8>, payload: Seq<u8>) -> bool {
    if enc && first_key is Some && audio.len() <= AES_GCM_P_MAX {
        &&& payload.len() == AUDIO_CRYPTO_HEADER + audio.len()
        &&& payload.take(12) == nonce
        &&& payload.skip(AUDIO_CRYPTO_HEADER as int) + payload.subrange(12, AUDIO_CRYPTO_HEADER as int)
            == aes256gcm_seal(first_key->0, nonce, audio)
    } else {
        payload == audio
    }
}

/// Decrypted audio from `ct || tag` under `key`: what comes back seals to
/// the input, and any admissible plaintext that seals to it comes back.
pub open spec fn decrypted_as(key: Seq<u8>, nonce: Seq<u8>, sealed_bytes: Seq<u8>, r: Option<Seq<u8>>) -> bool {
    &&& (r matches Some(p) ==> aes256gcm_seal(key, nonce, p) == sealed_bytes)
    &&& forall|p: Seq<u8>| #![trigger aes256gcm_seal(key, nonce, p)]
        p.len() <= AES_GCM_P_MAX && aes256gcm_seal(key, nonce, p) == sealed_bytes ==> r == Some(p)
}

/// Audio packed with a key is recovered by a receiver holding the same key:
/// the payload it decrypts (nonce, tag and ciphertext split at the header)
/// gives back exactly the audio sent. Empty audio is the exception, since a
/// receiver drops payloads no longer than the header.
pub proof fn lemma_encrypted_audio_round_trip(key: Seq<u8>, nonce: Seq<u8>, audio: Seq<u8>, payload: Seq<u8>, r: Option<Seq<u8>>)
    requires
        audio.len() > 0,
        audio.len() <= AES_GCM_P_MAX,
        outgoing_payload(true, Some(key), nonce, audio, payload),
        decrypted_as(key, payload.take(12),
            payload.skip(AUDIO_CRYPTO_HEADER as int) + payload.subrange(12, AUDIO_CRYPTO_HEADER as int), r),
    ensures
        payload.len() > AUDIO_CRYPTO_HEADER,
        r == Some(audio),
{
}

/// The decisions of one multicast transport.
pub struct TransportCore {
    device_id: u32,
    device_name: String,
    channel: u8,
    config: TransportConfig,
    peers: IdMap<PeerInfo>,
    engines: IdMap<CryptoEngine>,
    our_public_key: Option<[u8; 32]>,
}

impl TransportCore {
    /// Our device id.
    pub closed spec fn own_id(&self) -> u32 {
        self.device_id
    }

    /// Our device name.
    pub closed spec fn name_spec(&self) -> Seq<char> {
        self.device_name@
    }

    /// Whether audio is encrypted.
    pub closed spec fn encryption(&self) -> bool {
        self.config.encryption_enabled
    }

    /// The current channel.
    pub closed spec fn channel_spec(&self) -> u8 {
        self.channel
    }

    /// The peers heard.
    pub closed spec fn peers_spec(&self) -> Map<u32, PeerView> {
        self.peers.view().map_values(|p: PeerInfo| p@)
    }

    /// The order peers were first heard in.
    pub closed spec fn peer_order(&self) -> Seq<u32> {
        self.peers.key_seq()
    }

    /// The key installed for each peer with an engine.
    pub closed spec fn keys_spec(&self) -> Map<u32, Option<Seq<u8>>> {
        self.engines.view().map_values(|e: CryptoEngine| e.key_spec())
    }

    /// The order engines were set up in.
    pub closed spec fn engine_order(&self) -> Seq<u32> {
        self.engines.key_seq()
    }

    /// Our public key.
    pub closed spec fn public_key_spec(&self) -> Option<Seq<u8>> {
        match self.our_public_key {
            Some(k) => Some(k@),
            None => None,
        }
    }

    /// Internal consistency.
    pub closed spec fn wf(&self) -> bool {
        &&& self.peers.wf()
        &&& self.engines.wf()
    }

    /// Everything but the peer table and the engines is unchanged.
    pub closed spec fn same_settings(&self, o: Self) -> bool {
        &&& o.device_id == self.device_id
        &&& o.device_name == self.device_name
        &&& o.channel == self.channel
        &&& o.config == self.config
        &&& o.our_public_key == self.our_public_key
    }

    /// A transport for our device with a fresh key pair.
    pub fn new(device_id: u32, device_name: String, config: TransportConfig) -> (t: Self)
        ensures
            t.wf(),
            t.own_id() == device_id,
            t.encryption() == config.encryption_enabled,
            t.channel_spec() == 1,
            t.peers_spec() == Map::<u32, PeerView>::empty(),
            t.keys_spec() == Map::<u32, Option<Seq<u8>>>::empty(),
            t.public_key_spec() is Some,
    {
        let mut crypto = CryptoEngine::new();
        let our_public = crypto.generate_keypair();
        let t = TransportCore {
            device_id,
            device_name,
            channel: 1,
            config,
            peers: IdMap::new(),
            engines: IdMap::new(),
            our_public_key: Some(our_public),
        };
        assert(t.peers_spec() =~= Map::<u32, PeerView>::empty());
        assert(t.keys_spec() =~= Map::<u32, Option<Seq<u8>>>::empty());
        t
    }

    /// The discovery beacon at `now_ms`: with our public key when
    /// encryption is on.
    pub fn beacon_packet_at(&self, now_ms: u64) -> (p: Packet)
        ensures
            self.encryption() ==> p@ == sealed(self.own_id(), PacketTypeView::DiscoveryWithKey {
                device_name: self.name_spec(),
                channel: self.channel_spec(),
                public_key: self.public_key_spec(),
            }, now_ms),
            !self.encryption() ==> p@ == sealed(self.own_id(), PacketTypeView::Discovery {
                device_name: self.name_spec(),
                channel: self.channel_spec(),
            }, now_ms),
    {
        if self.config.encryption_enabled {
            Packet::discovery_with_key_at(self.device_id, self.device_name.clone(), self.channel, self.our_public_key, now_ms)
        } else {
            Packet::discovery_at(self.device_id, self.device_name.clone(), self.channel, now_ms)
        }
    }

    /// The keep-alive at `now_ms`, sent only while some peer is known.
    pub fn keepalive_packet_at(&self, now_ms: u64) -> (p: Option<Packet>)
        requires
            self.wf(),
        ensures
            match p {
                Some(q) => !self.peers_spec().is_empty() && q@ == sealed(self.own_id(), PacketTypeView::KeepAlive, now_ms),
                None => self.peers_spec().is_empty(),
            },
    {
        proof { self.peers.lemma_keys(); }
        if self.peers.len() > 0 {
            proof {
                let k = self.peer_order()[0];
                assert(self.peer_order().contains(k));
                assert(self.peers_spec().contains_key(k));
            }
            Some(Packet::keep_alive_at(self.device_id, now_ms))
        } else {
            assert(self.peers_spec() =~= Map::<u32, PeerView>::empty());
            None
        }
    }

    /// Pack outgoing audio at `now_ms` with `nonce` (see
    /// [`outgoing_payload`]): the first engine set up is used when its key
    /// is installed; otherwise the audio goes out plain.
    pub fn outgoing_audio_at(&self, audio: &[u8], nonce: [u8; 12], now_ms: u64) -> (p: Packet)
        requires
            self.wf(),
        ensures
            exists|payload: Seq<u8>| #![trigger outgoing_payload(self.encryption(), self.first_key(), nonce@, audio@, payload)]
                outgoing_payload(self.encryption(), self.first_key(), nonce@, audio@, payload)
                && p@ == sealed(self.own_id(), PacketTypeView::Audio { channel: self.channel_spec(), data: payload }, now_ms),
    {
        let plain = crate::buf::copy_bytes(audio);
        if !self.config.encryption_enabled || self.engines.len() == 0 {
            assert(outgoing_payload(self.encryption(), self.first_key(), nonce@, audio@, audio@));
            return Packet::audio_at(self.device_id, self.channel, plain, now_ms);
        }
        let (_, engine) = self.engines.entry_at(0);
        if !engine.is_ready() {
            assert(outgoing_payload(self.encryption(), self.first_key(), nonce@, audio@, audio@));
            return Packet::audio_at(self.device_id, self.channel, plain, now_ms);
        }
        match engine.encrypt(audio, &nonce) {
            Ok((ct, tag)) => {
                let mut payload: Vec<u8> = Vec::new();
                let mut i: usize = 0;
                while i < 12
                    invariant
                        i <= 12,
                        payload@ == nonce@.take(i as int),
                    decreases 12 - i,
                {
                    payload.push(nonce[i]);
                    i = i + 1;
                    assert(payload@ =~= nonce@.take(i as int));
                }
                let mut j: usize = 0;
                while j < 16
                    invariant
                        j <= 16,
                        payload@ == nonce@ + tag@.take(j as int),
                    decreases 16 - j,
                {
                    payload.push(tag[j]);
                    j = j + 1;
                    assert(payload@ =~= nonce@ + tag@.take(j as int));
                }
                assert(nonce@.take(12) =~= nonce@);
                assert(tag@.take(16) =~= tag@);
                crate::buf::append_bytes(&mut payload, ct.as_slice());
                assert(payload@ =~= nonce@ + tag@ + ct@);
                assert(self.first_key() == engine.key_spec());
                assert(ct@ + tag@ == aes256gcm_seal(self.first_key()->0, nonce@, audio@));
                assert(payload@.take(12) =~= nonce@);
                assert(payload@.skip(AUDIO_CRYPTO_HEADER as int) =~= ct@);
                assert(payload@.subrange(12, AUDIO_CRYPTO_HEADER as int) =~= tag@);
                assert(outgoing_payload(self.encryption(), self.first_key(), nonce@, audio@, payload@));
                Packet::audio_at(self.device_id, self.channel, payload, now_ms)
            }
            Err(_) => {
                assert(outgoing_payload(self.encryption(), self.first_key(), nonce@, audio@, audio@));
                Packet::audio_at(self.device_id, self.channel, plain, now_ms)
            }
        }
    }

    /// The key of the first engine set up, if any.
    pub closed spec fn first_key(&self) -> Option<Seq<u8>> {
        if self.engines.key_seq().len() > 0 {
            self.engines.view()[self.engines.key_seq()[0]].key_spec()
        } else {
            None
        }
    }

    /// Pack outgoing audio, drawing a fresh nonce and reading the clock.
    pub fn send_audio_packet(&self, audio: &[u8]) -> (p: Packet)
        requires
            self.wf(),
        ensures
            exists|nonce: Seq<u8>, payload: Seq<u8>| #![trigger outgoing_payload(self.encryption(), self.first_key(), nonce, audio@, payload)]
                nonce.len() == 12 && outgoing_payload(self.encryption(), self.first_key(), nonce, audio@, payload)
                && p@ == sealed(self.own_id(), PacketTypeView::Audio { channel: self.channel_spec(), data: payload }, p.timestamp),
    {
        let nonce = CryptoEngine::generate_nonce();
        self.outgoing_audio_at(audio, nonce, crate::wire::now_ms())
    }

    /// Set up an engine for `peer` keyed from its public key, unless one
    /// exists.
    fn install_engine(&mut self, peer: u32, peer_public: &[u8; 32])
        requires
            old(self).wf(),
        ensures
            final(self).wf(),
            old(self).same_settings(*final(self)),
            final(self).peers_spec() == old(self).peers_spec(),
            final(self).peer_order() == old(self).peer_order(),
            old(self).keys_spec().contains_key(peer) ==> final(self).keys_spec() == old(self).keys_spec(),
            !old(self).keys_spec().contains_key(peer) ==> exists|s: Seq<u8>| s.len() == 32
                && final(self).keys_spec() == old(self).keys_spec().insert(peer, Some(#[trigger] derive_key_spec(s))),
    {
        if self.engines.contains_key(peer) {
            return;
        }
        let mut engine = CryptoEngine::new();
        let _ = engine.generate_keypair();
        let ghost k0 = self.keys_spec();
        match engine.key_exchange(peer_public) {
            Ok(()) => {
                let ghost kv = engine.key_spec();
                self.engines.insert(peer, engine);
                assert(self.keys_spec() =~= k0.insert(peer, kv));
            }
            Err(_) => {}
        }
    }

    /// What a received packet does at `now_secs` (seconds), with `src_addr`
    /// its sender's address: our own packets are ignored; discovery beacons
    /// record the peer (and, with encryption on, set up a key from the
    /// announced public key); keep-alives refresh a known peer; key-exchange
    /// packets set up a key; audio is returned for playback, decrypted with
    /// the sender's key when encryption is on (and dropped when that fails).
    pub fn on_packet_at(&mut self, packet: Packet, src_addr: String, now_secs: u64) -> (audio: Option<Vec<u8>>)
        requires
            old(self).wf(),
        ensures
            final(self).wf(),
            old(self).same_settings(*final(self)),
            packet.device_id == old(self).own_id() ==> *final(self) == *old(self) && audio is None,
            packet.device_id != old(self).own_id() ==> match packet@.packet_type {
                PacketTypeView::Discovery { device_name, channel } => audio is None
                    && final(self).keys_spec() == old(self).keys_spec()
                    && final(self).peers_spec() == old(self).peers_spec().insert(packet.device_id, PeerView {
                        device_id: packet.device_id, device_name, address: src_addr@, last_seen: now_secs,
                        channel, public_key: None, key_exchanged: false,
                    }),
                PacketTypeView::DiscoveryWithKey { device_name, channel, public_key } => audio is None
                    && final(self).peers_spec() == old(self).peers_spec().insert(packet.device_id, PeerView {
                        device_id: packet.device_id, device_name, address: src_addr@, last_seen: now_secs, channel,
                        public_key: match public_key { Some(k) => Some(ascii_chars(hex_encode_spec(k))), None => None },
                        key_exchanged: false,
                    })
                    && (public_key is Some && old(self).encryption() && !old(self).keys_spec().contains_key(packet.device_id)
                        ==> exists|s: Seq<u8>| s.len() == 32 && final(self).keys_spec()
                            == old(self).keys_spec().insert(packet.device_id, Some(#[trigger] derive_key_spec(s))))
                    && (!(public_key is Some && old(self).encryption() && !old(self).keys_spec().contains_key(packet.device_id))
                        ==> final(self).keys_spec() == old(self).keys_spec()),
                PacketTypeView::Audio { channel, data } => final(self).keys_spec() == old(self).keys_spec()
                    && final(self).peers_spec() == old(self).peers_spec()
                    && (!old(self).encryption() ==> (audio matches Some(a) && a@ == data))
                    && (old(self).encryption() ==> (
                        if old(self).keys_spec().contains_key(packet.device_id)
                            && old(self).keys_spec()[packet.device_id] is Some && data.len() > AUDIO_CRYPTO_HEADER {
                            decrypted_as(old(self).keys_spec()[packet.device_id]->0, data.take(12),
                                data.skip(AUDIO_CRYPTO_HEADER as int) + data.subrange(12, AUDIO_CRYPTO_HEADER as int),
                                match audio { Some(a) => Some(a@), None => None })
                        } else {
                            audio is None
                        })),
                PacketTypeView::EncryptedAudio { channel, nonce, auth_tag, data } => final(self).keys_spec() == old(self).keys_spec()
                    && final(self).peers_spec() == old(self).peers_spec()
                    && (if old(self).keys_spec().contains_key(packet.device_id) && old(self).keys_spec()[packet.device_id] is Some {
                        decrypted_as(old(self).keys_spec()[packet.device_id]->0, nonce, data + auth_tag,
                            match audio { Some(a) => Some(a@), None => None })
                    } else {
                        audio is None
                    }),
                PacketTypeView::KeepAlive => audio is None && final(self).keys_spec() == old(self).keys_spec()
                    && final(self).peers_spec() == (if old(self).peers_spec().contains_key(packet.device_id) {
                        old(self).peers_spec().insert(packet.device_id,
                            PeerView { last_seen: now_secs, ..old(self).peers_spec()[packet.device_id] })
                    } else {
                        old(self).peers_spec()
                    }),
                PacketTypeView::KeyExchange { public_key } => audio is None
                    && final(self).peers_spec() == old(self).peers_spec()
                    && (old(self).encryption() && !old(self).keys_spec().contains_key(packet.device_id)
                        ==> exists|s: Seq<u8>| s.len() == 32 && final(self).keys_spec()
                            == old(self).keys_spec().insert(packet.device_id, Some(#[trigger] derive_key_spec(s))))
                    && (!(old(self).encryption() && !old(self).keys_spec().contains_key(packet.device_id))
                        ==> final(self).keys_spec() == old(self).keys_spec()),
                PacketTypeView::KeyExchangeResponse { public_key, success } => audio is None
                    && final(self).peers_spec() == old(self).peers_spec()
                    && (success && old(self).encryption() && !old(self).keys_spec().contains_key(packet.device_id)
                        ==> exists|s: Seq<u8>| s.len() == 32 && final(self).keys_spec()
                            == old(self).keys_spec().insert(packet.device_id, Some(#[trigger] derive_key_spec(s))))
                    && (!(success && old(self).encryption() && !old(self).keys_spec().contains_key(packet.device_id))
                        ==> final(self).keys_spec() == old(self).keys_spec()),
            },
    {
        if packet.device_id == self.device_id {
            return None;
        }
        let id = packet.device_id;
        match packet.packet_type {
            PacketType::Discovery { device_name, channel } => {
                let peer = PeerInfo {
                    device_id: id, device_name, address: src_addr, last_seen: now_secs,
                    channel, public_key: None, key_exchanged: false,
                };
                let ghost p0 = self.peers_spec();
                let ghost pv = peer@;
                self.peers.insert(id, peer);
                assert(self.peers_spec() =~= p0.insert(id, pv));
                None
            }
            PacketType::DiscoveryWithKey { device_name, channel, public_key } => {
                let hex_key = match &public_key {
                    Some(k) => Some(hex_encode(k)),
                    None => None,
                };
                let peer = PeerInfo {
                    device_id: id, device_name, address: src_addr, last_seen: now_secs,
                    channel, public_key: hex_key, key_exchanged: false,
                };
                match peer.get_public_key_bytes() {
                    Some(peer_public) => {
                        if self.config.encryption_enabled && !self.engines.contains_key(id) {
                            self.install_engine(id, &peer_public);
                            if self.peers.contains_key(id) {
                                let i = self.peers.index_of(id);
                                let placeholder = PeerInfo {
                                    device_id: 0, device_name: String::new(), address: String::new(), last_seen: 0,
                                    channel: 0, public_key: None, key_exchanged: false,
                                };
                                let mut existing = self.peers.swap_value_at(i, placeholder);
                                existing.key_exchanged = true;
                                let _ = self.peers.swap_value_at(i, existing);
                            }
                        }
                    }
                    None => {
                        proof {
                            if public_key is Some {
                                crate::peers::lemma_hex_round_trip(public_key->0@);
                            }
                        }
                    }
                }
                let ghost p0 = self.peers_spec();
                let ghost pv = peer@;
                self.peers.insert(id, peer);
                assert(self.peers_spec() =~= p0.insert(id, pv));
                None
            }
            PacketType::Audio { channel, data } => {
                if !self.config.encryption_enabled {
                    return Some(data);
                }
                match self.engines.get(id) {
                    Some(engine) => {
                        if engine.is_ready() && data.len() > AUDIO_CRYPTO_HEADER {
                            let mut nonce = [0u8; 12];
                            let mut i: usize = 0;
                            while i < 12
                                invariant
                                    i <= 12,
                                    data@.len() > AUDIO_CRYPTO_HEADER,
                                    forall|t: int| 0 <= t < i ==> nonce@[t] == data@[t],
                                decreases 12 - i,
                            {
                                nonce[i] = data[i];
                                i = i + 1;
                            }
                            let mut tag = [0u8; 16];
                            let mut j: usize = 0;
                            while j < 16
                                invariant
                                    j <= 16,
                                    data@.len() > AUDIO_CRYPTO_HEADER,
                                    forall|t: int| 0 <= t < j ==> tag@[t] == data@[12 + t],
                                decreases 16 - j,
                            {
                                tag[j] = data[12 + j];
                                j = j + 1;
                            }
                            assert(nonce@ =~= data@.take(12));
                            assert(tag@ =~= data@.subrange(12, AUDIO_CRYPTO_HEADER as int));
                            let mut ct: Vec<u8> = Vec::new();
                            let mut k: usize = AUDIO_CRYPTO_HEADER;
                            while k < data.len()
                                invariant
                                    AUDIO_CRYPTO_HEADER <= k <= data@.len(),
                                    ct@ == data@.subrange(AUDIO_CRYPTO_HEADER as int, k as int),
                                decreases data.len() - k,
                            {
                                ct.push(data[k]);
                                k = k + 1;
                                assert(ct@ =~= data@.subrange(AUDIO_CRYPTO_HEADER as int, k as int));
                            }
                            assert(ct@ =~= data@.skip(AUDIO_CRYPTO_HEADER as int));
                            match engine.decrypt(ct.as_slice(), &nonce, &tag) {
                                Ok(d) => Some(d),
                                Err(_) => None,
                            }
                        } else {
                            None
                        }
                    }
                    None => None,
                }
            }
            PacketType::EncryptedAudio { channel, nonce, auth_tag, data } => {
                match self.engines.get(id) {
                    Some(engine) => {
                        if engine.is_ready() {
                            match engine.decrypt(data.as_slice(), &nonce, &auth_tag) {
                                Ok(d) => Some(d),
                                Err(_) => None,
                            }
                        } else {
                            None
                        }
                    }
                    None => None,
                }
            }
            PacketType::KeepAlive => {
                if self.peers.contains_key(id) {
                    let i = self.peers.index_of(id);
                    let placeholder = PeerInfo {
                        device_id: 0, device_name: String::new(), address: String::new(), last_seen: 0,
                        channel: 0, public_key: None, key_exchanged: false,
                    };
                    let ghost p0 = self.peers_spec();
                    let mut existing = self.peers.swap_value_at(i, placeholder);
                    existing.last_seen = now_secs;
                    let ghost ev = existing@;
                    let _ = self.peers.swap_value_at(i, existing);
                    assert(self.peers_spec() =~= p0.insert(id, ev));
                }
                None
            }
            PacketType::KeyExchange { public_key } => {
                if self.config.encryption_enabled && !self.engines.contains_key(id) {
                    self.install_engine(id, &public_key);
                }
                None
            }
            PacketType::KeyExchangeResponse { public_key, success } => {
                if success && self.config.encryption_enabled && !self.engines.contains_key(id) {
                    self.install_engine(id, &public_key);
                }
                None
            }
        }
    }

    /// Copies of the peers active at `now_secs`, in the order first heard.
    pub fn get_peers_at(&self, now_secs: u64) -> (ps: Vec<PeerInfo>)
        requires
            self.wf(),
        ensures
            ps@.map_values(|p: PeerInfo| p@) == active_peers(self.peer_order(), self.peers_spec(), now_secs),
    {
        let ghost ks = self.peer_order();
        let ghost pred = |k: u32| peer_active(self.peers_spec()[k], now_secs);
        let mut out: Vec<PeerInfo> = Vec::new();
        let mut i: usize = 0;
        while i < self.peers.len()
            invariant
                self.wf(),
                ks == self.peer_order(),
                i <= ks.len(),
                pred == (|k: u32| peer_active(self.peers_spec()[k], now_secs)),
                out@.map_values(|p: PeerInfo| p@) == ks.take(i as int).filter(pred).map_values(|k: u32| self.peers_spec()[k]),
            decreases ks.len() - i,
        {
            let (k, p) = self.peers.entry_at(i);
            proof {
                reveal(Seq::filter);
                assert(ks.take(i + 1).drop_last() =~= ks.take(i as int));
                assert(ks.take(i + 1).last() == k);
                assert(self.peers_spec()[k] == p@);
            }
            if p.is_active_at(now_secs) {
                let ghost before = out@;
                out.push(p.duplicate());
                assert(out@.map_values(|p: PeerInfo| p@) =~= before.map_values(|p: PeerInfo| p@).push(p@));
            }
            i = i + 1;
        }
        assert(ks.take(i as int) =~= ks);
        out
    }

    /// Number of peers active at `now_secs`.
    pub fn peer_count_at(&self, now_secs: u64) -> (n: usize)
        requires
            self.wf(),
        ensures
            n == active_peers(self.peer_order(), self.peers_spec(), now_secs).len(),
    {
        let ps = self.get_peers_at(now_secs);
        ps.len()
    }

    /// Switch channel, clamped to `1..=16`.
    pub fn set_channel(&mut self, channel: u8)
        ensures
            final(self).channel_spec() == clamp_channel(channel),
            final(self).own_id() == old(self).own_id(),
            final(self).encryption() == old(self).encryption(),
            final(self).peers_spec() == old(self).peers_spec(),
            final(self).keys_spec() == old(self).keys_spec(),
            final(self).public_key_spec() == old(self).public_key_spec(),
            final(self).wf() == old(self).wf(),
    {
        self.channel = if channel < MIN_CHANNEL { MIN_CHANNEL } else if channel > MAX_CHANNEL { MAX_CHANNEL } else { channel };
    }

    /// The current channel.
    pub fn get_channel(&self) -> (c: u8)
        ensures
            c == self.channel_spec(),
    {
        self.channel
    }

    /// Replace the configuration.
    pub fn update_config(&mut self, config: TransportConfig)
        ensures
            final(self).encryption() == config.encryption_enabled,
            final(self).own_id() == old(self).own_id(),
            final(self).channel_spec() == old(self).channel_spec(),
            final(self).peers_spec() == old(self).peers_spec(),
            final(self).keys_spec() == old(self).keys_spec(),
            final(self).public_key_spec() == old(self).public_key_spec(),
            final(self).wf() == old(self).wf(),
    {
        self.config = config;
    }

    /// A copy of the configuration.
    pub fn get_config(&self) -> (c: TransportConfig)
        ensures
            c.encryption_enabled == self.encryption(),
    {
        self.config.duplicate()
    }

    /// Whether a key is installed for some peer.
    pub fn is_encrypted(&self) -> (b: bool)
        requires
            self.wf(),
        ensures
            b == exists|k: u32| #[trigger] self.keys_spec().contains_key(k) && self.keys_spec()[k] is Some,
    {
        proof { self.engines.lemma_keys(); }
        let mut i: usize = 0;
        while i < self.engines.len()
            invariant
                self.wf(),
                i <= self.engine_order().len(),
                self.engines.view().dom() == self.engine_order().to_set(),
                forall|j: int| 0 <= j < i ==> #[trigger] self.keys_spec()[self.engine_order()[j]] is None,
            decreases self.engine_order().len() - i,
        {
            let (k, e) = self.engines.entry_at(i);
            assert(self.keys_spec()[k] == e.key_spec());
            if e.is_ready() {
                assert(self.keys_spec().contains_key(k));
                return true;
            }
            i = i + 1;
        }
        proof {
            assert forall|k: u32| #[trigger] self.keys_spec().contains_key(k) implies self.keys_spec()[k] is None by {
                assert(self.engine_order().to_set().contains(k));
                let j = choose|j: int| 0 <= j < self.engine_order().len() && self.engine_order()[j] == k;
                assert(self.keys_spec()[self.engine_order()[j]] is None);
            }
        }
        false
    }

    /// Our public key in hex.
    pub fn get_public_key(&self) -> (h: Option<String>)
        ensures
            match h {
                Some(s) => (self.public_key_spec() matches Some(k) && s@ == ascii_chars(hex_encode_spec(k))),
                None => self.public_key_spec() is None,
            },
    {
        match &self.our_public_key {
            Some(k) => Some(hex_encode(k)),
            None => None,
        }
    }
}

} // verus!
