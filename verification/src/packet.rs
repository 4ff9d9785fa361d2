//! The desktop multicast packet: a version, the sender's device id, a typed
//! body, a millisecond timestamp and a CRC-32 over the header and body
//! fields in a fixed layout:
//!
//! ```text
//! [version:u8][device_id:u32 LE][timestamp:u64 LE][kind:u8][body fields]
//! ```
//!
//! The body fields follow the kind: the device name's UTF-8 bytes and the
//! channel for discovery (plus the public key when present), the channel
//! and data for audio, the channel, nonce, tag and data for encrypted audio,
//! the key (and a success byte) for key exchange.
use vstd::prelude::*;
use vstd::bytes::{spec_u32_to_le_bytes, spec_u64_to_le_bytes, u32_to_le_bytes, u64_to_le_bytes,
    spec_u32_from_le_bytes, spec_u64_from_le_bytes, lemma_auto_spec_u32_to_from_le_bytes,
    lemma_auto_spec_u64_to_from_le_bytes};
use vstd::utf8::encode_utf8;
use crate::buf::append_bytes;
use crate::primitives::{crc32, crc32_of, lemma_crc32_detects_one_changed_byte};
use crate::text::decimal;

verus! {

/// Current protocol version.
pub const PACKET_VERSION: u8 = 2;

/// Errors of the packet protocol.
#[derive(Debug)]
pub enum ProtocolError {
    SerializationError(String),
    DeserializationError(String),
    InvalidPacketType(u8),
    ChecksumMismatch,
    InvalidKeyLength,
}

/// Packet bodies.
#[derive(Debug, Clone)]
pub enum PacketType {
    /// Discovery beacon.
    Discovery { device_name: String, channel: u8 },
    /// Discovery beacon carrying an X25519 public key.
    DiscoveryWithKey { device_name: String, channel: u8, public_key: Option<[u8; 32]> },
    /// Audio data (plain or with an inline nonce and tag).
    Audio { channel: u8, data: Vec<u8> },
    /// Encrypted audio with an explicit nonce and tag.
    EncryptedAudio { channel: u8, nonce: [u8; 12], auth_tag: [u8; 16], data: Vec<u8> },
    /// Keep-alive.
    KeepAlive,
    /// Key exchange request.
    KeyExchange { public_key: [u8; 32] },
    /// Key exchange response.
    KeyExchangeResponse { public_key: [u8; 32], success: bool },
}

/// A packet body as mathematical values.
pub enum PacketTypeView {
    Discovery { device_name: Seq<char>, channel: u8 },
    DiscoveryWithKey { device_name: Seq<char>, channel: u8, public_key: Option<Seq<u8>> },
    Audio { channel: u8, data: Seq<u8> },
    EncryptedAudio { channel: u8, nonce: Seq<u8>, auth_tag: Seq<u8>, data: Seq<u8> },
    KeepAlive,
    KeyExchange { public_key: Seq<u8> },
    KeyExchangeResponse { public_key: Seq<u8>, success: bool },
}

impl View for PacketType {
    type V = PacketTypeView;

    open spec fn view(&self) -> PacketTypeView {
        match self {
            PacketType::Discovery { device_name, channel } => PacketTypeView::Discovery { device_name: device_name@, channel: *channel },
            PacketType::DiscoveryWithKey { device_name, channel, public_key } => PacketTypeView::DiscoveryWithKey {
                device_name: device_name@,
                channel: *channel,
                public_key: match public_key { Some(k) => Some(k@), None => None },
            },
            PacketType::Audio { channel, data } => PacketTypeView::Audio { channel: *channel, data: data@ },
            PacketType::EncryptedAudio { channel, nonce, auth_tag, data } => PacketTypeView::EncryptedAudio {
                channel: *channel,
                nonce: nonce@,
                auth_tag: auth_tag@,
                data: data@,
            },
            PacketType::KeepAlive => PacketTypeView::KeepAlive,
            PacketType::KeyExchange { public_key } => PacketTypeView::KeyExchange { public_key: public_key@ },
            PacketType::KeyExchangeResponse { public_key, success } => PacketTypeView::KeyExchangeResponse {
                public_key: public_key@,
                success: *success,
            },
        }
    }
}

/// A packet as mathematical values.
pub struct PacketView {
    pub version: u8,
    pub device_id: u32,
    pub packet_type: PacketTypeView,
    pub timestamp: u64,
    pub checksum: u32,
}

/// A network packet.
#[derive(Debug, Clone)]
pub struct Packet {
    pub version: u8,
    pub device_id: u32,
    pub packet_type: PacketType,
    /// Unix epoch milliseconds.
    pub timestamp: u64,
    /// CRC-32 of the header and body fields.
    pub checksum: u32,
}

impl View for Packet {
    type V = PacketView;

    open spec fn view(&self) -> PacketView {
        PacketView {
            version: self.version,
            device_id: self.device_id,
            packet_type: self.packet_type@,
            timestamp: self.timestamp,
            checksum: self.checksum,
        }
    }
}

/// The body bytes covered by the checksum: a kind byte, then the fields.
pub open spec fn body_bytes(t: PacketTypeView) -> Seq<u8> {
    match t {
        PacketTypeView::Discovery { device_name, channel } => seq![0u8] + encode_utf8(device_name) + seq![channel],
        PacketTypeView::DiscoveryWithKey { device_name, channel, public_key } => seq![1u8] + encode_utf8(device_name)
            + seq![channel] + match public_key { Some(k) => k, None => Seq::empty() },
        PacketTypeView::Audio { channel, data } => seq![2u8, channel] + data,
        PacketTypeView::EncryptedAudio { channel, nonce, auth_tag, data } => seq![3u8, channel] + nonce + auth_tag + data,
        PacketTypeView::KeepAlive => seq![4u8],
        PacketTypeView::KeyExchange { public_key } => seq![5u8] + public_key,
        PacketTypeView::KeyExchangeResponse { public_key, success } => seq![6u8] + public_key + seq![if success { 1u8 } else { 0u8 }],
    }
}

/// The bytes covered by the checksum.
pub open spec fn checksum_input(p: PacketView) -> Seq<u8> {
    seq![p.version] + spec_u32_to_le_bytes(p.device_id) + spec_u64_to_le_bytes(p.timestamp) + body_bytes(p.packet_type)
}

/// The checksum of a packet.
pub open spec fn packet_checksum(p: PacketView) -> u32 {
    crc32(checksum_input(p))
}

/// A current-version packet with its checksum filled in.
pub open spec fn sealed(device_id: u32, t: PacketTypeView, timestamp: u64) -> PacketView {
    let p = PacketView { version: PACKET_VERSION, device_id, packet_type: t, timestamp, checksum: 0 };
    PacketView { checksum: packet_checksum(p), ..p }
}

/// The size estimate for a body.
pub open spec fn estimate_spec(t: PacketTypeView) -> nat {
    match t {
        PacketTypeView::Discovery { device_name, .. } => 50 + encode_utf8(device_name).len(),
        PacketTypeView::DiscoveryWithKey { device_name, .. } => 82 + encode_utf8(device_name).len(),
        PacketTypeView::Audio { data, .. } => 50 + data.len(),
        PacketTypeView::EncryptedAudio { data, .. } => 78 + data.len(),
        PacketTypeView::KeepAlive => 50,
        PacketTypeView::KeyExchange { .. } => 82,
        PacketTypeView::KeyExchangeResponse { .. } => 83,
    }
}

fn append_array<const N: usize>(out: &mut Vec<u8>, a: &[u8; N])
    ensures
        final(out)@ == old(out)@ + a@,
{
    let ghost before = out@;
    let mut i: usize = 0;
    while i < N
        invariant
            i <= N,
            a@.len() == N,
            out@ == before + a@.take(i as int),
        decreases N - i,
    {
        out.push(a[i]);
        i = i + 1;
        assert(out@ =~= before + a@.take(i as int));
    }
    assert(a@.take(N as int) =~= a@);
}

impl Packet {
    /// The bytes covered by the checksum.
    fn checksum_bytes(&self) -> (b: Vec<u8>)
        ensures
            b@ == checksum_input(self@),
    {
        let mut b: Vec<u8> = Vec::new();
        b.push(self.version);
        append_bytes(&mut b, u32_to_le_bytes(self.device_id).as_slice());
        append_bytes(&mut b, u64_to_le_bytes(self.timestamp).as_slice());
        let ghost head = b@;
        match &self.packet_type {
            PacketType::Discovery { device_name, channel } => {
                b.push(0u8);
                append_bytes(&mut b, device_name.as_str().as_bytes());
                b.push(*channel);
            }
            PacketType::DiscoveryWithKey { device_name, channel, public_key } => {
                b.push(1u8);
                append_bytes(&mut b, device_name.as_str().as_bytes());
                b.push(*channel);
                match public_key {
                    Some(k) => append_array(&mut b, k),
                    None => {}
                }
            }
            PacketType::Audio { channel, data } => {
                b.push(2u8);
                b.push(*channel);
                append_bytes(&mut b, data.as_slice());
            }
            PacketType::EncryptedAudio { channel, nonce, auth_tag, data } => {
                b.push(3u8);
                b.push(*channel);
                append_array(&mut b, nonce);
                append_array(&mut b, auth_tag);
                append_bytes(&mut b, data.as_slice());
            }
            PacketType::KeepAlive => {
                b.push(4u8);
            }
            PacketType::KeyExchange { public_key } => {
                b.push(5u8);
                append_array(&mut b, public_key);
            }
            PacketType::KeyExchangeResponse { public_key, success } => {
                b.push(6u8);
                append_array(&mut b, public_key);
                b.push(if *success { 1u8 } else { 0u8 });
            }
        }
        assert(b@ =~= head + body_bytes(self@.packet_type));
        assert(b@ =~= checksum_input(self@));
        b
    }

    /// The checksum of this packet's fields.
    fn calculate_checksum(&self) -> (c: u32)
        ensures
            c == packet_checksum(self@),
    {
        let b = self.checksum_bytes();
        crc32_of(b.as_slice())
    }

    fn sealed_at(device_id: u32, packet_type: PacketType, timestamp: u64) -> (p: Self)
        ensures
            p@ == sealed(device_id, packet_type@, timestamp),
    {
        let mut p = Packet { version: PACKET_VERSION, device_id, packet_type, timestamp, checksum: 0 };
        p.checksum = p.calculate_checksum();
        p
    }

    /// A discovery beacon stamped `timestamp`.
    pub fn discovery_at(device_id: u32, device_name: String, channel: u8, timestamp: u64) -> (p: Self)
        ensures
            p@ == sealed(device_id, PacketTypeView::Discovery { device_name: device_name@, channel }, timestamp),
    {
        Self::sealed_at(device_id, PacketType::Discovery { device_name, channel }, timestamp)
    }

    /// A discovery beacon stamped now.
    pub fn discovery(device_id: u32, device_name: String, channel: u8) -> (p: Self)
        ensures
            p@ == sealed(device_id, PacketTypeView::Discovery { device_name: device_name@, channel }, p.timestamp),
    {
        Self::discovery_at(device_id, device_name, channel, crate::wire::now_ms())
    }

    /// A discovery beacon with a public key, stamped `timestamp`.
    pub fn discovery_with_key_at(device_id: u32, device_name: String, channel: u8, public_key: Option<[u8; 32]>, timestamp: u64) -> (p: Self)
        ensures
            p@ == sealed(device_id, PacketTypeView::DiscoveryWithKey {
                device_name: device_name@,
                channel,
                public_key: match public_key { Some(k) => Some(k@), None => None },
            }, timestamp),
    {
        Self::sealed_at(device_id, PacketType::DiscoveryWithKey { device_name, channel, public_key }, timestamp)
    }

    /// A discovery beacon with a public key, stamped now.
    pub fn discovery_with_key(device_id: u32, device_name: String, channel: u8, public_key: Option<[u8; 32]>) -> (p: Self)
        ensures
            p@ == sealed(device_id, PacketTypeView::DiscoveryWithKey {
                device_name: device_name@,
                channel,
                public_key: match public_key { Some(k) => Some(k@), None => None },
            }, p.timestamp),
    {
        Self::discovery_with_key_at(device_id, device_name, channel, public_key, crate::wire::now_ms())
    }

    /// An audio packet stamped `timestamp`.
    pub fn audio_at(device_id: u32, channel: u8, data: Vec<u8>, timestamp: u64) -> (p: Self)
        ensures
            p@ == sealed(device_id, PacketTypeView::Audio { channel, data: data@ }, timestamp),
    {
        Self::sealed_at(device_id, PacketType::Audio { channel, data }, timestamp)
    }

    /// An audio packet stamped now.
    pub fn audio(device_id: u32, channel: u8, data: Vec<u8>) -> (p: Self)
        ensures
            p@ == sealed(device_id, PacketTypeView::Audio { channel, data: data@ }, p.timestamp),
    {
        Self::audio_at(device_id, channel, data, crate::wire::now_ms())
    }

    /// An encrypted audio packet stamped `timestamp`.
    pub fn encrypted_audio_at(device_id: u32, channel: u8, nonce: [u8; 12], auth_tag: [u8; 16], data: Vec<u8>, timestamp: u64) -> (p: Self)
        ensures
            p@ == sealed(device_id, PacketTypeView::EncryptedAudio { channel, nonce: nonce@, auth_tag: auth_tag@, data: data@ }, timestamp),
    {
        Self::sealed_at(device_id, PacketType::EncryptedAudio { channel, nonce, auth_tag, data }, timestamp)
    }

    /// An encrypted audio packet stamped now.
    pub fn encrypted_audio(device_id: u32, channel: u8, nonce: [u8; 12], auth_tag: [u8; 16], data: Vec<u8>) -> (p: Self)
        ensures
            p@ == sealed(device_id, PacketTypeView::EncryptedAudio { channel, nonce: nonce@, auth_tag: auth_tag@, data: data@ }, p.timestamp),
    {
        Self::encrypted_audio_at(device_id, channel, nonce, auth_tag, data, crate::wire::now_ms())
    }

    /// A keep-alive stamped `timestamp`.
    pub fn keep_alive_at(device_id: u32, timestamp: u64) -> (p: Self)
        ensures
            p@ == sealed(device_id, PacketTypeView::KeepAlive, timestamp),
    {
        Self::sealed_at(device_id, PacketType::KeepAlive, timestamp)
    }

    /// A keep-alive stamped now.
    pub fn keep_alive(device_id: u32) -> (p: Self)
        ensures
            p@ == sealed(device_id, PacketTypeView::KeepAlive, p.timestamp),
    {
        Self::keep_alive_at(device_id, crate::wire::now_ms())
    }

    /// A key-exchange request stamped `timestamp`.
    pub fn key_exchange_at(device_id: u32, public_key: [u8; 32], timestamp: u64) -> (p: Self)
        ensures
            p@ == sealed(device_id, PacketTypeView::KeyExchange { public_key: public_key@ }, timestamp),
    {
        Self::sealed_at(device_id, PacketType::KeyExchange { public_key }, timestamp)
    }

    /// A key-exchange request stamped now.
    pub fn key_exchange(device_id: u32, public_key: [u8; 32]) -> (p: Self)
        ensures
            p@ == sealed(device_id, PacketTypeView::KeyExchange { public_key: public_key@ }, p.timestamp),
    {
        Self::key_exchange_at(device_id, public_key, crate::wire::now_ms())
    }

    /// Whether the stored checksum matches the fields.
    pub fn verify_checksum(&self) -> (ok: bool)
        ensures
            ok == (self.checksum == packet_checksum(self@)),
    {
        self.calculate_checksum() == self.checksum
    }

    /// Estimated encoded size in bytes.
    pub fn estimate_size(&self) -> (n: usize)
        requires
            estimate_spec(self@.packet_type) <= usize::MAX,
        ensures
            n == estimate_spec(self@.packet_type),
    {
        match &self.packet_type {
            PacketType::Discovery { device_name, .. } => 50 + device_name.as_str().len(),
            PacketType::DiscoveryWithKey { device_name, .. } => 82 + device_name.as_str().len(),
            PacketType::Audio { data, .. } => 50 + data.len(),
            PacketType::EncryptedAudio { data, .. } => 78 + data.len(),
            PacketType::KeepAlive => 50,
            PacketType::KeyExchange { .. } => 82,
            PacketType::KeyExchangeResponse { .. } => 83,
        }
    }

    /// Whether the body is encrypted audio.
    pub fn is_encrypted(&self) -> (b: bool)
        ensures
            b == (self@.packet_type is EncryptedAudio),
    {
        match &self.packet_type {
            PacketType::EncryptedAudio { .. } => true,
            _ => false,
        }
    }

    /// Checks applied to a decoded packet: the version must be 1 or 2 and
    /// the checksum must match.
    pub fn check_decoded(p: Packet) -> (r: Result<Packet, String>)
        ensures
            match r {
                Ok(q) => q@ == p@ && 1 <= p.version <= PACKET_VERSION && p.checksum == packet_checksum(p@),
                Err(e) => !(1 <= p.version <= PACKET_VERSION && p.checksum == packet_checksum(p@))
                    && e@ == (if !(1 <= p.version <= PACKET_VERSION) {
                        "Invalid protocol version: "@ + decimal(p.version as nat) + ""@
                    } else {
                        "Checksum verification failed"@
                    }),
            },
    {
        if p.version < 1 || p.version > PACKET_VERSION {
            return Err(crate::text::with_number("Invalid protocol version: ", p.version as u64, ""));
        }
        if !p.verify_checksum() {
            return Err("Checksum verification failed".to_owned());
        }
        Ok(p)
    }
}

/// Every packet this module builds carries the checksum of its own fields,
/// so verifying it succeeds.
pub proof fn lemma_sealed_verifies(device_id: u32, t: PacketTypeView, timestamp: u64)
    ensures
        sealed(device_id, t, timestamp).checksum == packet_checksum(sealed(device_id, t, timestamp)),
{
    let p = PacketView { version: PACKET_VERSION, device_id, packet_type: t, timestamp, checksum: 0 };
    assert(checksum_input(sealed(device_id, t, timestamp)) == checksum_input(p));
}


/// The checksum of an audio packet covers every field: two audio packets
/// with the same checksummed bytes have the same version, sender, timestamp,
/// channel and audio data.
pub proof fn lemma_audio_checksum_covers_all_fields(p: PacketView, q: PacketView)
    requires
        p.packet_type is Audio,
        q.packet_type is Audio,
        checksum_input(p) == checksum_input(q),
    ensures
        p.version == q.version,
        p.device_id == q.device_id,
        p.timestamp == q.timestamp,
        p.packet_type == q.packet_type,
{
    lemma_auto_spec_u32_to_from_le_bytes();
    lemma_auto_spec_u64_to_from_le_bytes();
    let a = checksum_input(p);
    let b = checksum_input(q);
    let (pc, pd) = match p.packet_type { PacketTypeView::Audio { channel, data } => (channel, data), _ => (0u8, Seq::empty()) };
    let (qc, qd) = match q.packet_type { PacketTypeView::Audio { channel, data } => (channel, data), _ => (0u8, Seq::empty()) };
    assert(a =~= seq![p.version] + spec_u32_to_le_bytes(p.device_id) + spec_u64_to_le_bytes(p.timestamp) + seq![2u8, pc] + pd);
    assert(b =~= seq![q.version] + spec_u32_to_le_bytes(q.device_id) + spec_u64_to_le_bytes(q.timestamp) + seq![2u8, qc] + qd);
    assert(a[0] == p.version && b[0] == q.version);
    assert(a.subrange(1, 5) =~= spec_u32_to_le_bytes(p.device_id));
    assert(b.subrange(1, 5) =~= spec_u32_to_le_bytes(q.device_id));
    assert(a.subrange(5, 13) =~= spec_u64_to_le_bytes(p.timestamp));
    assert(b.subrange(5, 13) =~= spec_u64_to_le_bytes(q.timestamp));
    assert(a[14] == pc && b[14] == qc);
    assert(a.skip(15) =~= pd);
    assert(b.skip(15) =~= qd);
}

/// Corrupting one byte of an audio packet's data is always caught: the
/// checksum of the corrupted packet differs from the original one, so a
/// packet carrying the original checksum with the corrupted data fails
/// verification.
pub proof fn lemma_audio_corruption_detected(p: PacketView, q: PacketView, i: int)
    requires
        p.packet_type is Audio,
        q.packet_type is Audio,
        p.version == q.version,
        p.device_id == q.device_id,
        p.timestamp == q.timestamp,
        p.packet_type->Audio_channel == q.packet_type->Audio_channel,
        p.packet_type->Audio_data.len() == q.packet_type->Audio_data.len(),
        0 <= i < p.packet_type->Audio_data.len(),
        p.packet_type->Audio_data[i] != q.packet_type->Audio_data[i],
        forall|j: int| 0 <= j < p.packet_type->Audio_data.len() && j != i
            ==> p.packet_type->Audio_data[j] == q.packet_type->Audio_data[j],
    ensures
        packet_checksum(p) != packet_checksum(q),
{
    lemma_auto_spec_u32_to_from_le_bytes();
    lemma_auto_spec_u64_to_from_le_bytes();
    let pd = p.packet_type->Audio_data;
    let qd = q.packet_type->Audio_data;
    let c = p.packet_type->Audio_channel;
    let head = seq![p.version] + spec_u32_to_le_bytes(p.device_id) + spec_u64_to_le_bytes(p.timestamp) + seq![2u8, c];
    let a = checksum_input(p);
    let b = checksum_input(q);
    assert(a =~= head + pd);
    assert(b =~= head + qd);
    assert(head.len() == 15);
    assert forall|j: int| 0 <= j < a.len() && j != 15 + i implies a[j] == b[j] by {
        if j >= 15 {
            assert(a[j] == pd[j - 15] && b[j] == qd[j - 15]);
        }
    }
    assert(a[15 + i] == pd[i] && b[15 + i] == qd[i]);
    lemma_crc32_detects_one_changed_byte(a, b, 15 + i);
}


/// The checksum of an encrypted-audio packet covers every field: two such
/// packets with the same checksummed bytes have the same version, sender,
/// timestamp, channel, nonce, tag and ciphertext.
pub proof fn lemma_encrypted_audio_checksum_covers_all_fields(p: PacketView, q: PacketView)
    requires
        p.packet_type is EncryptedAudio,
        q.packet_type is EncryptedAudio,
        p.packet_type->EncryptedAudio_nonce.len() == 12,
        q.packet_type->EncryptedAudio_nonce.len() == 12,
        p.packet_type->EncryptedAudio_auth_tag.len() == 16,
        q.packet_type->EncryptedAudio_auth_tag.len() == 16,
        checksum_input(p) == checksum_input(q),
    ensures
        p.version == q.version,
        p.device_id == q.device_id,
        p.timestamp == q.timestamp,
        p.packet_type == q.packet_type,
{
    lemma_auto_spec_u32_to_from_le_bytes();
    lemma_auto_spec_u64_to_from_le_bytes();
    let a = checksum_input(p);
    let b = checksum_input(q);
    let pt = p.packet_type;
    let qt = q.packet_type;
    assert(a =~= seq![p.version] + spec_u32_to_le_bytes(p.device_id) + spec_u64_to_le_bytes(p.timestamp)
        + seq![3u8, pt->EncryptedAudio_channel] + pt->EncryptedAudio_nonce + pt->EncryptedAudio_auth_tag + pt->EncryptedAudio_data);
    assert(b =~= seq![q.version] + spec_u32_to_le_bytes(q.device_id) + spec_u64_to_le_bytes(q.timestamp)
        + seq![3u8, qt->EncryptedAudio_channel] + qt->EncryptedAudio_nonce + qt->EncryptedAudio_auth_tag + qt->EncryptedAudio_data);
    assert(a[0] == p.version && b[0] == q.version);
    assert(a.subrange(1, 5) =~= spec_u32_to_le_bytes(p.device_id));
    assert(b.subrange(1, 5) =~= spec_u32_to_le_bytes(q.device_id));
    assert(a.subrange(5, 13) =~= spec_u64_to_le_bytes(p.timestamp));
    assert(b.subrange(5, 13) =~= spec_u64_to_le_bytes(q.timestamp));
    assert(a[14] == pt->EncryptedAudio_channel && b[14] == qt->EncryptedAudio_channel);
    assert(a.subrange(15, 27) =~= pt->EncryptedAudio_nonce);
    assert(b.subrange(15, 27) =~= qt->EncryptedAudio_nonce);
    assert(a.subrange(27, 43) =~= pt->EncryptedAudio_auth_tag);
    assert(b.subrange(27, 43) =~= qt->EncryptedAudio_auth_tag);
    assert(a.skip(43) =~= pt->EncryptedAudio_data);
    assert(b.skip(43) =~= qt->EncryptedAudio_data);
}

/// The checksum of a key-exchange packet covers the key: two key-exchange
/// requests (or two responses) with the same checksummed bytes carry the
/// same header, key and success flag.
pub proof fn lemma_key_exchange_checksum_covers_key(p: PacketView, q: PacketView)
    requires
        (p.packet_type is KeyExchange && q.packet_type is KeyExchange)
            || (p.packet_type is KeyExchangeResponse && q.packet_type is KeyExchangeResponse),
        p.packet_type is KeyExchangeResponse ==> p.packet_type->KeyExchangeResponse_public_key.len()
            == q.packet_type->KeyExchangeResponse_public_key.len(),
        checksum_input(p) == checksum_input(q),
    ensures
        p.version == q.version,
        p.device_id == q.device_id,
        p.timestamp == q.timestamp,
        p.packet_type == q.packet_type,
{
    lemma_auto_spec_u32_to_from_le_bytes();
    lemma_auto_spec_u64_to_from_le_bytes();
    let a = checksum_input(p);
    let b = checksum_input(q);
    let hp = seq![p.version] + spec_u32_to_le_bytes(p.device_id) + spec_u64_to_le_bytes(p.timestamp);
    let hq = seq![q.version] + spec_u32_to_le_bytes(q.device_id) + spec_u64_to_le_bytes(q.timestamp);
    assert(a =~= hp + body_bytes(p.packet_type));
    assert(b =~= hq + body_bytes(q.packet_type));
    assert(a[0] == p.version && b[0] == q.version);
    assert(a.subrange(1, 5) =~= spec_u32_to_le_bytes(p.device_id));
    assert(b.subrange(1, 5) =~= spec_u32_to_le_bytes(q.device_id));
    assert(a.subrange(5, 13) =~= spec_u64_to_le_bytes(p.timestamp));
    assert(b.subrange(5, 13) =~= spec_u64_to_le_bytes(q.timestamp));
    assert(a.skip(13) =~= body_bytes(p.packet_type));
    assert(b.skip(13) =~= body_bytes(q.packet_type));
    let bp = body_bytes(p.packet_type);
    let bq = body_bytes(q.packet_type);
    if p.packet_type is KeyExchange {
        assert(bp.skip(1) =~= p.packet_type->KeyExchange_public_key);
        assert(bq.skip(1) =~= q.packet_type->KeyExchange_public_key);
    } else {
        let kp = p.packet_type->KeyExchangeResponse_public_key;
        let kq = q.packet_type->KeyExchangeResponse_public_key;
        assert(bp.subrange(1, 1 + kp.len() as int) =~= kp);
        assert(bq.subrange(1, 1 + kq.len() as int) =~= kq);
        assert(bp[1 + kp.len() as int] == (if p.packet_type->KeyExchangeResponse_success { 1u8 } else { 0u8 }));
        assert(bq[1 + kq.len() as int] == (if q.packet_type->KeyExchangeResponse_success { 1u8 } else { 0u8 }));
    }
}

} // verus!
