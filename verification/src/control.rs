//! Desktop control-plane frames: legacy single-byte opcodes and TLV frames
//! for heartbeats, receive/end-of-transmission acks, partner-offline and
//! the v2 PTT markers.
use vstd::prelude::*;
use vstd::bytes::*;
use vstd::string::StringSliceAdditionalSpecFns;
use crate::buf::{append_bytes, copy_bytes};
use crate::protocol::{tlv_frame, le16};

verus! {

pub const OP_PTT_START: u8 = 0x01;
pub const OP_PTT_STOP: u8 = 0x02;
pub const OP_READY_ACK: u8 = 0x03;
pub const OP_PING: u8 = 0x04;
pub const OP_CHANNEL_SYNC: u8 = 0x05;
pub const OP_HEARTBEAT: u8 = 0x10;
pub const OP_RECV_ACK: u8 = 0x11;
pub const OP_EOT_ACK: u8 = 0x12;
pub const OP_CAPABILITIES: u8 = 0x13;
pub const OP_PARTNER_OFFLINE: u8 = 0x14;
pub const OP_PTT_START_V2: u8 = 0x15;
pub const OP_PTT_STOP_V2: u8 = 0x16;

/// Presence advertised in a heartbeat.
#[derive(Debug, Clone, Copy, PartialEq, Eq, Structural)]
pub enum PresenceState {
    Idle,
    Listening,
    Speaking,
    Muted,
    Away,
    Backgrounded,
    Dnd,
}

/// The byte a presence state is sent as.
pub open spec fn presence_byte(s: PresenceState) -> u8 {
    match s {
        PresenceState::Idle => 0,
        PresenceState::Listening => 1,
        PresenceState::Speaking => 2,
        PresenceState::Muted => 3,
        PresenceState::Away => 4,
        PresenceState::Backgrounded => 5,
        PresenceState::Dnd => 6,
    }
}

/// The presence state a byte decodes to; unknown bytes decode as `Idle`.
pub open spec fn presence_of(b: u8) -> PresenceState {
    if b == 1 { PresenceState::Listening }
    else if b == 2 { PresenceState::Speaking }
    else if b == 3 { PresenceState::Muted }
    else if b == 4 { PresenceState::Away }
    else if b == 5 { PresenceState::Backgrounded }
    else if b == 6 { PresenceState::Dnd }
    else { PresenceState::Idle }
}

impl PresenceState {
    /// Decode a presence byte; unknown values map to `Idle`.
    pub fn from_byte(b: u8) -> (s: Self)
        ensures
            s == presence_of(b),
    {
        match b {
            1 => PresenceState::Listening,
            2 => PresenceState::Speaking,
            3 => PresenceState::Muted,
            4 => PresenceState::Away,
            5 => PresenceState::Backgrounded,
            6 => PresenceState::Dnd,
            _ => PresenceState::Idle,
        }
    }

    /// The wire byte of this state.
    pub fn as_byte(self) -> (b: u8)
        ensures
            b == presence_byte(self),
    {
        match self {
            PresenceState::Idle => 0,
            PresenceState::Listening => 1,
            PresenceState::Speaking => 2,
            PresenceState::Muted => 3,
            PresenceState::Away => 4,
            PresenceState::Backgrounded => 5,
            PresenceState::Dnd => 6,
        }
    }
}

/// A decoded control frame.
#[derive(Debug)]
pub struct Decoded {
    pub opcode: u8,
    pub payload: Vec<u8>,
}

/// A parsed heartbeat payload.
#[derive(Debug)]
pub struct Heartbeat {
    pub epoch: u64,
    pub seq: u32,
    pub ts_ms: u64,
    pub state: PresenceState,
    pub rtt_ms: u16,
}

/// A parsed receive-ack payload.
#[derive(Debug)]
pub struct RecvAck {
    pub epoch: u64,
    pub last_seq: u32,
    pub ts_ms: u64,
}

/// What [`decode`] yields: opcode 0 and no payload for empty input; the
/// opcode and no payload for a legacy opcode or a frame shorter than the TLV
/// header; otherwise the announced payload, clipped at the end of the input.
pub open spec fn decode_spec(b: Seq<u8>) -> (u8, Seq<u8>) {
    if b.len() == 0 {
        (0, Seq::empty())
    } else if b[0] < 0x10 || b.len() < 3 {
        (b[0], Seq::empty())
    } else {
        let len = b[1] as int + 256 * b[2] as int;
        let end = if 3 + len < b.len() { 3 + len } else { b.len() as int };
        (b[0], b.subrange(3, end))
    }
}

/// Heartbeat payload: `[epoch:u64][seq:u32][ts_ms:u64][state:u8][rtt_ms:u16]`, little endian.
pub open spec fn heartbeat_payload(epoch: u64, seq: u32, ts_ms: u64, state: PresenceState, rtt_ms: u16) -> Seq<u8> {
    spec_u64_to_le_bytes(epoch) + spec_u32_to_le_bytes(seq) + spec_u64_to_le_bytes(ts_ms)
        + seq![presence_byte(state)] + spec_u16_to_le_bytes(rtt_ms)
}

/// Receive-ack payload: `[epoch:u64][last_seq:u32][ts_ms:u64]`.
pub open spec fn recv_ack_payload(epoch: u64, last_seq: u32, ts_ms: u64) -> Seq<u8> {
    spec_u64_to_le_bytes(epoch) + spec_u32_to_le_bytes(last_seq) + spec_u64_to_le_bytes(ts_ms)
}

/// Epoch plus a 32-bit sequence number (EOT ack and v2 PTT markers).
pub open spec fn epoch_seq_payload(epoch: u64, seq: u32) -> Seq<u8> {
    spec_u64_to_le_bytes(epoch) + spec_u32_to_le_bytes(seq)
}

/// Partner-offline payload: id length (truncated to a byte), then the id bytes.
pub open spec fn partner_offline_payload(id: Seq<u8>) -> Seq<u8> {
    seq![(id.len() % 256) as u8] + id
}

/// A one-byte legacy frame.
pub fn encode_legacy(op: u8) -> (out: Vec<u8>)
    ensures
        out@ == seq![op],
{
    let out = vec![op];
    assert(out@ =~= seq![op]);
    out
}

/// A TLV frame `[op][len:u16 LE][payload]`; the payload must fit the 16-bit
/// length field.
pub fn encode_tlv(op: u8, payload: &[u8]) -> (out: Vec<u8>)
    requires
        payload@.len() <= 0xFFFF,
    ensures
        out@ == seq![op] + le16(payload@.len()) + payload@,
{
    let out = crate::protocol::encode_tlv(op, payload);
    assert(payload@.len() % 65536 == payload@.len());
    out
}

/// Decode a control frame (never fails; see [`decode_spec`]).
pub fn decode(bytes: &[u8]) -> (d: Decoded)
    ensures
        (d.opcode, d.payload@) == decode_spec(bytes@),
{
    if bytes.len() == 0 {
        let d = Decoded { opcode: 0, payload: Vec::new() };
        assert(d.payload@ =~= Seq::<u8>::empty());
        return d;
    }
    let op = bytes[0];
    if op < 0x10 || bytes.len() < 3 {
        let d = Decoded { opcode: op, payload: Vec::new() };
        assert(d.payload@ =~= Seq::<u8>::empty());
        return d;
    }
    let len: usize = bytes[1] as usize + 256 * (bytes[2] as usize);
    let end: usize = if 3 + len < bytes.len() { 3 + len } else { bytes.len() };
    Decoded { opcode: op, payload: copy_bytes(&bytes[3..end]) }
}

fn tlv_with(op: u8, payload: Vec<u8>) -> (out: Vec<u8>)
    requires
        payload@.len() <= 0xFFFF,
    ensures
        out@ == tlv_frame(op, payload@),
{
    crate::protocol::encode_tlv(op, payload.as_slice())
}

/// Encode a heartbeat frame.
pub fn encode_heartbeat(epoch: u64, seq: u32, ts_ms: u64, state: PresenceState, rtt_ms: u16) -> (out: Vec<u8>)
    ensures
        out@ == tlv_frame(OP_HEARTBEAT, heartbeat_payload(epoch, seq, ts_ms, state, rtt_ms)),
        out@.len() == 3 + 23,
{
    let mut p: Vec<u8> = Vec::new();
    append_bytes(&mut p, u64_to_le_bytes(epoch).as_slice());
    append_bytes(&mut p, u32_to_le_bytes(seq).as_slice());
    append_bytes(&mut p, u64_to_le_bytes(ts_ms).as_slice());
    p.push(state.as_byte());
    append_bytes(&mut p, u16_to_le_bytes(rtt_ms).as_slice());
    assert(p@ =~= heartbeat_payload(epoch, seq, ts_ms, state, rtt_ms));
    tlv_with(OP_HEARTBEAT, p)
}

/// Parse a heartbeat payload; `None` when shorter than 23 bytes (longer
/// payloads are accepted and the tail ignored).
pub fn parse_heartbeat(payload: &[u8]) -> (r: Option<Heartbeat>)
    ensures
        payload@.len() < 23 ==> r is None,
        payload@.len() >= 23 ==> (r matches Some(h) && h.epoch == spec_u64_from_le_bytes(payload@.subrange(0, 8))
            && h.seq == spec_u32_from_le_bytes(payload@.subrange(8, 12))
            && h.ts_ms == spec_u64_from_le_bytes(payload@.subrange(12, 20))
            && h.state == presence_of(payload@[20])
            && h.rtt_ms == spec_u16_from_le_bytes(payload@.subrange(21, 23))),
{
    if payload.len() < 23 {
        return None;
    }
    Some(Heartbeat {
        epoch: u64_from_le_bytes(&payload[0..8]),
        seq: u32_from_le_bytes(&payload[8..12]),
        ts_ms: u64_from_le_bytes(&payload[12..20]),
        state: PresenceState::from_byte(payload[20]),
        rtt_ms: u16_from_le_bytes(&payload[21..23]),
    })
}

/// Encode a receive-ack frame.
pub fn encode_recv_ack(epoch: u64, last_seq: u32, ts_ms: u64) -> (out: Vec<u8>)
    ensures
        out@ == tlv_frame(OP_RECV_ACK, recv_ack_payload(epoch, last_seq, ts_ms)),
{
    let mut p: Vec<u8> = Vec::new();
    append_bytes(&mut p, u64_to_le_bytes(epoch).as_slice());
    append_bytes(&mut p, u32_to_le_bytes(last_seq).as_slice());
    append_bytes(&mut p, u64_to_le_bytes(ts_ms).as_slice());
    assert(p@ =~= recv_ack_payload(epoch, last_seq, ts_ms));
    tlv_with(OP_RECV_ACK, p)
}

/// Parse a receive-ack payload; `None` when shorter than 20 bytes.
pub fn parse_recv_ack(payload: &[u8]) -> (r: Option<RecvAck>)
    ensures
        payload@.len() < 20 ==> r is None,
        payload@.len() >= 20 ==> (r matches Some(a) && a.epoch == spec_u64_from_le_bytes(payload@.subrange(0, 8))
            && a.last_seq == spec_u32_from_le_bytes(payload@.subrange(8, 12))
            && a.ts_ms == spec_u64_from_le_bytes(payload@.subrange(12, 20))),
{
    if payload.len() < 20 {
        return None;
    }
    Some(RecvAck {
        epoch: u64_from_le_bytes(&payload[0..8]),
        last_seq: u32_from_le_bytes(&payload[8..12]),
        ts_ms: u64_from_le_bytes(&payload[12..20]),
    })
}

fn epoch_seq_frame(op: u8, epoch: u64, seq: u32) -> (out: Vec<u8>)
    ensures
        out@ == tlv_frame(op, epoch_seq_payload(epoch, seq)),
{
    let mut p: Vec<u8> = Vec::new();
    append_bytes(&mut p, u64_to_le_bytes(epoch).as_slice());
    append_bytes(&mut p, u32_to_le_bytes(seq).as_slice());
    assert(p@ =~= epoch_seq_payload(epoch, seq));
    tlv_with(op, p)
}

/// Encode an end-of-transmission ack.
pub fn encode_eot_ack(epoch: u64, up_to_seq: u32) -> (out: Vec<u8>)
    ensures
        out@ == tlv_frame(OP_EOT_ACK, epoch_seq_payload(epoch, up_to_seq)),
{
    epoch_seq_frame(OP_EOT_ACK, epoch, up_to_seq)
}

/// Encode a partner-offline notice for `peer_id`; the id must fit the
/// frame's 16-bit payload length.
pub fn encode_partner_offline(peer_id: &str) -> (out: Vec<u8>)
    requires
        peer_id.spec_bytes().len() < 0xFFFF,
    ensures
        out@ == tlv_frame(OP_PARTNER_OFFLINE, partner_offline_payload(peer_id.spec_bytes())),
{
    let id_bytes = peer_id.as_bytes();
    let mut p: Vec<u8> = Vec::new();
    p.push((id_bytes.len() % 256) as u8);
    append_bytes(&mut p, id_bytes);
    assert(p@ =~= partner_offline_payload(peer_id.spec_bytes()));
    tlv_with(OP_PARTNER_OFFLINE, p)
}

/// Encode a v2 PTT-start marker.
pub fn encode_ptt_start_v2(epoch: u64, start_seq: u32) -> (out: Vec<u8>)
    ensures
        out@ == tlv_frame(OP_PTT_START_V2, epoch_seq_payload(epoch, start_seq)),
{
    epoch_seq_frame(OP_PTT_START_V2, epoch, start_seq)
}

/// Encode a v2 PTT-stop marker.
pub fn encode_ptt_stop_v2(epoch: u64, end_seq: u32) -> (out: Vec<u8>)
    ensures
        out@ == tlv_frame(OP_PTT_STOP_V2, epoch_seq_payload(epoch, end_seq)),
{
    epoch_seq_frame(OP_PTT_STOP_V2, epoch, end_seq)
}

/// A random nonzero session epoch.
pub fn new_session_epoch() -> (e: u64)
    ensures
        e != 0,
{
    crate::primitives::random_nonzero_u64()
}

/// Decoding a TLV frame gives back its opcode and payload, for every TLV
/// opcode and every payload that fits the length field.
pub proof fn lemma_decode_tlv(op: u8, payload: Seq<u8>)
    requires
        op >= 0x10,
        payload.len() <= 0xFFFF,
    ensures
        decode_spec(tlv_frame(op, payload)) == (op, payload),
{
    let f = tlv_frame(op, payload);
    assert(f[1] as int + 256 * f[2] as int == payload.len());
    assert(f.subrange(3, f.len() as int) =~= payload);
}

/// A legacy frame decodes to its opcode with no payload.
pub proof fn lemma_decode_legacy(op: u8)
    ensures
        decode_spec(seq![op]) == (op, Seq::<u8>::empty()),
{
}

/// Every presence state survives its byte encoding.
pub proof fn lemma_presence_round_trip(s: PresenceState)
    ensures
        presence_of(presence_byte(s)) == s,
{
}

/// Heartbeat round trip: decoding an encoded heartbeat and parsing its
/// payload gives back every field.
pub proof fn lemma_heartbeat_round_trip(epoch: u64, seq: u32, ts_ms: u64, state: PresenceState, rtt_ms: u16)
    ensures
        ({
            let (op, p) = decode_spec(tlv_frame(OP_HEARTBEAT, heartbeat_payload(epoch, seq, ts_ms, state, rtt_ms)));
            &&& op == OP_HEARTBEAT
            &&& p.len() == 23
            &&& spec_u64_from_le_bytes(p.subrange(0, 8)) == epoch
            &&& spec_u32_from_le_bytes(p.subrange(8, 12)) == seq
            &&& spec_u64_from_le_bytes(p.subrange(12, 20)) == ts_ms
            &&& presence_of(p[20]) == state
            &&& spec_u16_from_le_bytes(p.subrange(21, 23)) == rtt_ms
        }),
{
    lemma_auto_spec_u64_to_from_le_bytes();
    lemma_auto_spec_u32_to_from_le_bytes();
    lemma_auto_spec_u16_to_from_le_bytes();
    let p = heartbeat_payload(epoch, seq, ts_ms, state, rtt_ms);
    lemma_decode_tlv(OP_HEARTBEAT, p);
    assert(p.subrange(0, 8) =~= spec_u64_to_le_bytes(epoch));
    assert(p.subrange(8, 12) =~= spec_u32_to_le_bytes(seq));
    assert(p.subrange(12, 20) =~= spec_u64_to_le_bytes(ts_ms));
    assert(p.subrange(21, 23) =~= spec_u16_to_le_bytes(rtt_ms));
}

/// Receive-ack round trip.
pub proof fn lemma_recv_ack_round_trip(epoch: u64, last_seq: u32, ts_ms: u64)
    ensures
        ({
            let (op, p) = decode_spec(tlv_frame(OP_RECV_ACK, recv_ack_payload(epoch, last_seq, ts_ms)));
            &&& op == OP_RECV_ACK
            &&& p.len() == 20
            &&& spec_u64_from_le_bytes(p.subrange(0, 8)) == epoch
            &&& spec_u32_from_le_bytes(p.subrange(8, 12)) == last_seq
            &&& spec_u64_from_le_bytes(p.subrange(12, 20)) == ts_ms
        }),
{
    lemma_auto_spec_u64_to_from_le_bytes();
    lemma_auto_spec_u32_to_from_le_bytes();
    let p = recv_ack_payload(epoch, last_seq, ts_ms);
    lemma_decode_tlv(OP_RECV_ACK, p);
    assert(p.subrange(0, 8) =~= spec_u64_to_le_bytes(epoch));
    assert(p.subrange(8, 12) =~= spec_u32_to_le_bytes(last_seq));
    assert(p.subrange(12, 20) =~= spec_u64_to_le_bytes(ts_ms));
}

/// Partner-offline round trip: the payload starts with the id length and
/// carries the id bytes, for ids shorter than 256 bytes.
pub proof fn lemma_partner_offline_round_trip(id: Seq<u8>)
    requires
        id.len() < 256,
    ensures
        ({
            let (op, p) = decode_spec(tlv_frame(OP_PARTNER_OFFLINE, partner_offline_payload(id)));
            &&& op == OP_PARTNER_OFFLINE
            &&& p[0] as int == id.len()
            &&& p.subrange(1, 1 + id.len() as int) == id
        }),
{
    let p = partner_offline_payload(id);
    assert(p.len() <= 0xFFFF);
    lemma_decode_tlv(OP_PARTNER_OFFLINE, p);
    assert(p[0] == (id.len() % 256) as u8);
    assert(id.len() % 256 == id.len());
    assert(p.subrange(1, 1 + id.len() as int) =~= id);
}

} // verus!
