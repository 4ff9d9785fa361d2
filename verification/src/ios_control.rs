//! Heartbeat frames of the iOS relay path: the shared `OP_HEARTBEAT` TLV
//! with the presence state given as its byte.
use vstd::prelude::*;
use vstd::bytes::*;
use crate::buf::append_bytes;
use crate::protocol::{encode_tlv, tlv_frame, OP_HEARTBEAT};

verus! {

/// Presence byte: idle.
pub const PRESENCE_IDLE: u8 = 0;
/// Presence byte: speaking.
pub const PRESENCE_SPEAKING: u8 = 2;

/// Heartbeat payload: `[epoch:u64][seq:u32][ts_ms:u64][state:u8][rtt_ms:u16]`,
/// little-endian, with no capabilities byte.
pub open spec fn ios_heartbeat_payload(epoch: u64, seq: u32, ts_ms: u64, state: u8, rtt_ms: u16) -> Seq<u8> {
    spec_u64_to_le_bytes(epoch) + spec_u32_to_le_bytes(seq) + spec_u64_to_le_bytes(ts_ms) + seq![state]
        + spec_u16_to_le_bytes(rtt_ms)
}

/// Encode an `OP_HEARTBEAT` TLV with a 23-byte payload.
pub fn encode_heartbeat(epoch: u64, seq: u32, ts_ms: u64, state: u8, rtt_ms: u16) -> (out: Vec<u8>)
    ensures
        out@ == tlv_frame(OP_HEARTBEAT, ios_heartbeat_payload(epoch, seq, ts_ms, state, rtt_ms)),
        ios_heartbeat_payload(epoch, seq, ts_ms, state, rtt_ms).len() == 23,
{
    let mut p: Vec<u8> = Vec::with_capacity(23);
    append_bytes(&mut p, u64_to_le_bytes(epoch).as_slice());
    append_bytes(&mut p, u32_to_le_bytes(seq).as_slice());
    append_bytes(&mut p, u64_to_le_bytes(ts_ms).as_slice());
    p.push(state);
    append_bytes(&mut p, u16_to_le_bytes(rtt_ms).as_slice());
    assert(p@ =~= ios_heartbeat_payload(epoch, seq, ts_ms, state, rtt_ms));
    encode_tlv(OP_HEARTBEAT, p.as_slice())
}

/// Wall-clock milliseconds since the unix epoch.
pub fn now_ms() -> u64 {
    crate::wire::now_ms()
}

} // verus!
