//! Wire-protocol opcodes shared by every endpoint, and the TLV framing
//! `[opcode:u8][payload_len:u16 LE][payload]` used by the v2 opcodes.
use vstd::prelude::*;

verus! {

/// Legacy PTT-start (no epoch / seq).
pub const OP_PTT_START: u8 = 0x01;
/// Legacy PTT-stop.
pub const OP_PTT_STOP: u8 = 0x02;
/// Periodic heartbeat (keepalive + presence advertisement).
pub const OP_HEARTBEAT: u8 = 0x10;
/// Peer dropped from the room.
pub const OP_PARTNER_OFFLINE: u8 = 0x14;
/// PTT start with epoch and start sequence.
pub const OP_PTT_START_V2: u8 = 0x15;
/// PTT stop with epoch.
pub const OP_PTT_STOP_V2: u8 = 0x16;
/// Wake-push trigger.
pub const OP_WAKE: u8 = 0x17;
/// Replayed audio frame from the relay's per-peer ring buffer.
pub const OP_REPLAY_FRAME: u8 = 0x19;

/// The two little-endian bytes of a 16-bit length.
pub open spec fn le16(len: nat) -> Seq<u8> {
    seq![(len % 256) as u8, ((len / 256) % 256) as u8]
}

/// A TLV frame: opcode, the payload length truncated to 16 bits (little
/// endian), then the payload bytes.
pub open spec fn tlv_frame(op: u8, payload: Seq<u8>) -> Seq<u8> {
    seq![op] + le16(payload.len() % 65536) + payload
}

/// Payload length announced by the two header bytes after the opcode.
pub open spec fn announced_len(bytes: Seq<u8>) -> int {
    bytes[1] as int + 256 * (bytes[2] as int)
}

/// What parsing the first TLV frame of `bytes` yields: the opcode and the
/// announced payload, or nothing when the buffer is shorter than the header,
/// the opcode is a legacy one, or the announced payload runs past the end.
pub open spec fn parse_tlv_spec(bytes: Seq<u8>) -> Option<(u8, Seq<u8>)> {
    if bytes.len() < 3 || bytes[0] < 0x10 || bytes.len() < 3 + announced_len(bytes) {
        None
    } else {
        Some((bytes[0], bytes.subrange(3, 3 + announced_len(bytes))))
    }
}

/// Returns true when an opcode byte is in the TLV-framed v2 range (>= 0x10).
pub fn is_tlv_opcode(op: u8) -> (r: bool)
    ensures
        r == (op >= 0x10),
{
    op >= 0x10
}

/// Encode a payload as `[op][len:u16 LE][payload...]`; a payload longer
/// than 0xFFFF has its length field truncated to 16 bits.
pub fn encode_tlv(op: u8, payload: &[u8]) -> (out: Vec<u8>)
    ensures
        out@ == tlv_frame(op, payload@),
{
    let len: usize = payload.len() % 0x10000;
    let mut out: Vec<u8> = Vec::with_capacity(3);
    out.push(op);
    out.push((len % 256) as u8);
    out.push((len / 256) as u8);
    let mut i: usize = 0;
    while i < payload.len()
        invariant
            i <= payload.len(),
            out@ == seq![op] + le16(len as nat) + payload@.subrange(0, i as int),
            len == payload@.len() % 65536,
        decreases payload.len() - i,
    {
        out.push(payload[i]);
        i = i + 1;
        assert(payload@.subrange(0, i as int) == payload@.subrange(0, i - 1) + seq![payload@[i - 1]]);
    }
    assert(payload@.subrange(0, payload.len() as int) == payload@);
    out
}

/// Decoded TLV frame view; `payload` borrows into the caller's buffer.
#[derive(Debug, Clone, Copy)]
pub struct Tlv<'a> {
    pub opcode: u8,
    pub payload: &'a [u8],
}

/// Parse the first TLV frame in `bytes`. Returns `None` if the buffer is too
/// short, advertises a length past its own end, or the opcode is < 0x10.
pub fn parse_tlv(bytes: &[u8]) -> (r: Option<Tlv<'_>>)
    ensures
        match parse_tlv_spec(bytes@) {
            None => r is None,
            Some((op, p)) => r matches Some(t) && t.opcode == op && t.payload@ == p,
        },
{
    if bytes.len() < 3 {
        return None;
    }
    if !is_tlv_opcode(bytes[0]) {
        return None;
    }
    let payload_len: usize = (bytes[1] as usize) + 256 * (bytes[2] as usize);
    if bytes.len() < 3 + payload_len {
        return None;
    }
    Some(Tlv { opcode: bytes[0], payload: &bytes[3..3 + payload_len] })
}

/// Parsing a frame produced by [`encode_tlv`] gives back the opcode and the
/// payload, for every TLV opcode and every payload that fits the 16-bit
/// length field.
pub proof fn lemma_tlv_round_trip(op: u8, payload: Seq<u8>)
    requires
        op >= 0x10,
        payload.len() <= 0xFFFF,
    ensures
        parse_tlv_spec(tlv_frame(op, payload)) == Some((op, payload)),
{
    let f = tlv_frame(op, payload);
    assert(f[1] == (payload.len() % 256) as u8);
    assert(f[2] == ((payload.len() / 256) % 256) as u8);
    assert(announced_len(f) == payload.len());
    assert(f.subrange(3, 3 + payload.len() as int) =~= payload);
}

} // verus!
