//! The heartbeat plane of the desktop transport as two steps: what a
//! received datagram does to the liveness table, and what one emit tick
//! records and sends. The caller owns the socket, the clock and the timer.
use vstd::prelude::*;
use vstd::bytes::{spec_u32_from_le_bytes, spec_u64_from_le_bytes};
use crate::control::{decode, decode_spec, parse_heartbeat, encode_heartbeat, heartbeat_payload,
    presence_byte, presence_of, PresenceState, OP_HEARTBEAT, lemma_heartbeat_round_trip};
use crate::liveness::{LivenessTracker, PeerView, after_heard, after_sent, fresh_peer};
use crate::protocol::tlv_frame;
use crate::primitives::{ascii_chars, string_from_ascii};

verus! {

/// A datagram whose first byte is at least `0x10` is a control frame.
pub open spec fn is_control_datagram(b: Seq<u8>) -> bool {
    b.len() > 0 && b[0] >= 0x10
}

/// The heartbeat a datagram carries, as `(epoch, seq, ts_ms, presence byte)`:
/// a control frame with the heartbeat opcode and a payload of at least 23
/// bytes; the presence byte is normalised to a known state.
pub open spec fn heartbeat_in(b: Seq<u8>) -> Option<(u64, u32, u64, u8)> {
    let (op, p) = decode_spec(b);
    if is_control_datagram(b) && op == OP_HEARTBEAT && p.len() >= 23 {
        Some((
            spec_u64_from_le_bytes(p.subrange(0, 8)),
            spec_u32_from_le_bytes(p.subrange(8, 12)),
            spec_u64_from_le_bytes(p.subrange(12, 20)),
            presence_byte(presence_of(p[20])),
        ))
    } else {
        None
    }
}

/// The liveness table after a heartbeat `(epoch, seq, state)` from `peer`
/// heard at `now_ms`.
pub open spec fn heard_from(
    m: Map<Seq<char>, PeerView>,
    peer: Seq<char>,
    epoch: u64,
    seq: u32,
    now_ms: u64,
    state: u8,
) -> Map<Seq<char>, PeerView> {
    let base = if m.contains_key(peer) { m[peer] } else { fresh_peer(epoch, now_ms, state) };
    m.insert(peer, after_heard(base, epoch, seq, now_ms, state))
}

/// Receive step for a datagram from `peer_key` at `now_ms`. A control frame
/// is consumed here (the result is `true`) and, when it is a heartbeat,
/// refreshes the sender's liveness entry; any other datagram is left for
/// the packet path and the table is unchanged.
pub fn on_control_datagram(liveness: &mut LivenessTracker, received: &[u8], peer_key: &str, now_ms: u64) -> (consumed: bool)
    requires
        old(liveness).wf(),
    ensures
        final(liveness).wf(),
        consumed == is_control_datagram(received@),
        match heartbeat_in(received@) {
            Some((epoch, seq, _ts, state)) =>
                final(liveness).view() == heard_from(old(liveness).view(), peer_key@, epoch, seq, now_ms, state),
            None => final(liveness).view() == old(liveness).view(),
        },
{
    if received.len() == 0 || received[0] < 0x10 {
        return false;
    }
    let decoded = decode(received);
    if decoded.opcode == OP_HEARTBEAT {
        if let Some(hb) = parse_heartbeat(decoded.payload.as_slice()) {
            liveness.on_heartbeat(peer_key, hb.epoch, hb.seq, hb.ts_ms, now_ms, hb.state.as_byte());
        }
    }
    true
}

/// An uppercase hexadecimal digit.
pub open spec fn upper_hex_digit(n: nat) -> u8 {
    if n < 10 { (0x30 + n) as u8 } else { (0x37 + n) as u8 }
}

/// The low `k` hexadecimal digits of `n`, most significant first.
pub open spec fn upper_hex(n: nat, k: nat) -> Seq<u8>
    decreases k,
{
    if k == 0 { Seq::empty() } else { upper_hex(n / 16, (k - 1) as nat).push(upper_hex_digit(n % 16)) }
}

fn upper_hex_digits(n: u32, k: u8) -> (v: Vec<u8>)
    ensures
        v@ == upper_hex(n as nat, k as nat),
        forall|i: int| 0 <= i < v@.len() ==> v@[i] < 128,
    decreases k,
{
    if k == 0 {
        let v: Vec<u8> = Vec::new();
        assert(v@ =~= upper_hex(n as nat, 0));
        v
    } else {
        let mut v = upper_hex_digits(n / 16, k - 1);
        let d: u8 = (n % 16) as u8;
        let c: u8 = if d < 10 { 0x30u8 + d } else { 0x37u8 + d };
        v.push(c);
        v
    }
}

/// The liveness key of a device: its id as eight uppercase hex digits.
pub fn device_key(device_id: u32) -> (s: String)
    ensures
        s@ == ascii_chars(upper_hex(device_id as nat, 8)),
{
    string_from_ascii(upper_hex_digits(device_id, 8))
}

/// Emit step: heartbeat `seq` of session `epoch` is recorded as sent under
/// `own_key` at `now_ms`, and the idle heartbeat frame to multicast is
/// returned.
pub fn heartbeat_tick(liveness: &mut LivenessTracker, own_key: &str, epoch: u64, seq: u32, now_ms: u64) -> (frame: Vec<u8>)
    requires
        old(liveness).wf(),
    ensures
        final(liveness).wf(),
        final(liveness).view() == old(liveness).view().insert(own_key@, after_sent(
            if old(liveness).view().contains_key(own_key@) { old(liveness).view()[own_key@] } else { fresh_peer(0, 0, 0) },
            seq, now_ms)),
        frame@ == tlv_frame(OP_HEARTBEAT, heartbeat_payload(epoch, seq, now_ms, PresenceState::Idle, 0)),
{
    liveness.on_heartbeat_sent(own_key, epoch, seq, now_ms);
    encode_heartbeat(epoch, seq, now_ms, PresenceState::Idle, 0)
}

/// A heartbeat frame that one side emits is heard by the other as exactly
/// the heartbeat sent: the same epoch, sequence number, send time and state.
pub proof fn lemma_emitted_heartbeat_is_heard(epoch: u64, seq: u32, ts_ms: u64, state: PresenceState, rtt_ms: u16)
    ensures
        is_control_datagram(tlv_frame(OP_HEARTBEAT, heartbeat_payload(epoch, seq, ts_ms, state, rtt_ms))),
        heartbeat_in(tlv_frame(OP_HEARTBEAT, heartbeat_payload(epoch, seq, ts_ms, state, rtt_ms)))
            == Some((epoch, seq, ts_ms, presence_byte(state))),
{
    lemma_heartbeat_round_trip(epoch, seq, ts_ms, state, rtt_ms);
}

} // verus!
