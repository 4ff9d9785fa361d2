//! Rotating, unlinkable room ids and peer handles derived from the shared
//! session key with HKDF-SHA256, so the relay only sees opaque tokens.
use vstd::prelude::*;
use vstd::bytes::{spec_u64_to_le_bytes, u64_to_le_bytes};
use vstd::string::StringSliceAdditionalSpecFns;
use crate::buf::append_bytes;
use crate::primitives::{hkdf_sha256, hkdf_sha256_expand, base64_url_nopad, base64_nopad_len,
    encode_base64_url_nopad, zeroize_vec};

verus! {

/// Default rotation window: 15 minutes.
pub const DEFAULT_EPOCH_SECS: u64 = 900;
/// Length, in base64url characters, of a blinded room id.
pub const ROOM_ID_B64_LEN: usize = 24;
/// Bytes of HKDF output backing a room id.
pub const ROOM_ID_BYTES: usize = 18;
/// Length, in base64url characters, of a sealed peer handle.
pub const PEER_HANDLE_B64_LEN: usize = 22;
/// Bytes of HKDF output backing a peer handle.
pub const PEER_HANDLE_BYTES: usize = 16;
/// Lower bound of the relay's accepted room-id length window.
pub const ROOM_ID_MIN_LEN: usize = 8;
/// Upper bound of the relay's accepted room-id length window.
pub const ROOM_ID_MAX_LEN: usize = 64;
/// Placeholder sent as the `device=` query value when sealed handles are in use.
pub const SEALED_DEVICE_PLACEHOLDER: &'static str = "sealed";

/// `b"sassytalkie-sealed-room-v1"`.
pub open spec fn room_info_prefix() -> Seq<u8> {
    seq![0x73u8, 0x61, 0x73, 0x73, 0x79, 0x74, 0x61, 0x6c, 0x6b, 0x69, 0x65, 0x2d, 0x73,
        0x65, 0x61, 0x6c, 0x65, 0x64, 0x2d, 0x72, 0x6f, 0x6f, 0x6d, 0x2d, 0x76, 0x31]
}

/// `b"sassytalkie-sealed-peer-v1"`.
pub open spec fn peer_info_prefix() -> Seq<u8> {
    seq![0x73u8, 0x61, 0x73, 0x73, 0x79, 0x74, 0x61, 0x6c, 0x6b, 0x69, 0x65, 0x2d, 0x73,
        0x65, 0x61, 0x6c, 0x65, 0x64, 0x2d, 0x70, 0x65, 0x65, 0x72, 0x2d, 0x76, 0x31]
}

/// The epoch window length actually used: 0 counts as 1 second.
pub open spec fn effective_secs(epoch_secs: u64) -> int {
    if epoch_secs == 0 { 1 } else { epoch_secs as int }
}

/// `floor(now_ms / 1000 / epoch_secs)`.
pub open spec fn epoch_of(now_ms: u64, epoch_secs: u64) -> int {
    (now_ms as int / 1000) / effective_secs(epoch_secs)
}

/// HKDF `info` for a room: prefix, then the epoch as 8 LE bytes.
pub open spec fn room_info_spec(epoch: u64) -> Seq<u8> {
    room_info_prefix() + spec_u64_to_le_bytes(epoch)
}

/// HKDF `info` for a peer: prefix, epoch (8 LE bytes), id length (8 LE
/// bytes), then the id bytes.
pub open spec fn peer_info_spec(id: Seq<u8>, epoch: u64) -> Seq<u8> {
    peer_info_prefix() + spec_u64_to_le_bytes(epoch) + spec_u64_to_le_bytes(id.len() as u64) + id
}

/// The blinded room id for `(key, epoch)`.
pub open spec fn room_id_spec(key: Seq<u8>, epoch: u64) -> Seq<char> {
    base64_url_nopad(hkdf_sha256(key, room_info_spec(epoch), ROOM_ID_BYTES as nat))
}

/// The sealed peer handle for `(key, peer id bytes, epoch)`.
pub open spec fn peer_handle_spec(key: Seq<u8>, id: Seq<u8>, epoch: u64) -> Seq<char> {
    base64_url_nopad(hkdf_sha256(key, peer_info_spec(id, epoch), PEER_HANDLE_BYTES as nat))
}

/// Compute the rotation epoch for a wall-clock time; an `epoch_secs` of 0 is
/// treated as 1 second.
pub fn current_epoch(now_ms: u64, epoch_secs: u64) -> (e: u64)
    ensures
        e == epoch_of(now_ms, epoch_secs),
{
    let epoch_secs: u64 = if epoch_secs < 1 { 1 } else { epoch_secs };
    (now_ms / 1000) / epoch_secs
}

/// Seconds remaining until the current epoch rolls over; in `1..=epoch_secs`.
pub fn seconds_until_next_epoch(now_ms: u64, epoch_secs: u64) -> (s: u64)
    ensures
        s == effective_secs(epoch_secs) - (now_ms as int / 1000) % effective_secs(epoch_secs),
        1 <= s <= effective_secs(epoch_secs),
{
    let epoch_secs: u64 = if epoch_secs < 1 { 1 } else { epoch_secs };
    let now_s = now_ms / 1000;
    let elapsed_in_epoch = now_s % epoch_secs;
    epoch_secs - elapsed_in_epoch
}

/// The HKDF `info` bytes for a room derivation.
pub fn room_info(epoch: u64) -> (info: Vec<u8>)
    ensures
        info@ == room_info_spec(epoch),
{
    let prefix: [u8; 26] = [0x73, 0x61, 0x73, 0x73, 0x79, 0x74, 0x61, 0x6c, 0x6b, 0x69, 0x65,
        0x2d, 0x73, 0x65, 0x61, 0x6c, 0x65, 0x64, 0x2d, 0x72, 0x6f, 0x6f, 0x6d, 0x2d, 0x76, 0x31];
    let mut info: Vec<u8> = Vec::new();
    append_bytes(&mut info, prefix.as_slice());
    let e = u64_to_le_bytes(epoch);
    append_bytes(&mut info, e.as_slice());
    assert(prefix@ =~= room_info_prefix());
    info
}

/// The HKDF `info` bytes for a peer derivation.
pub fn peer_info(stable_peer_id: &str, epoch: u64) -> (info: Vec<u8>)
    ensures
        info@ == peer_info_spec(stable_peer_id.spec_bytes(), epoch),
{
    let id = stable_peer_id.as_bytes();
    let prefix: [u8; 26] = [0x73, 0x61, 0x73, 0x73, 0x79, 0x74, 0x61, 0x6c, 0x6b, 0x69, 0x65,
        0x2d, 0x73, 0x65, 0x61, 0x6c, 0x65, 0x64, 0x2d, 0x70, 0x65, 0x65, 0x72, 0x2d, 0x76, 0x31];
    let mut info: Vec<u8> = Vec::new();
    append_bytes(&mut info, prefix.as_slice());
    let e = u64_to_le_bytes(epoch);
    append_bytes(&mut info, e.as_slice());
    let l = u64_to_le_bytes(id.len() as u64);
    append_bytes(&mut info, l.as_slice());
    append_bytes(&mut info, id);
    assert(prefix@ =~= peer_info_prefix());
    info
}

/// Derive the blinded room id for `(session_key, epoch)`: 24 base64url
/// characters of HKDF output, deterministic in its inputs.
pub fn blinded_room_id(session_key: &[u8; 32], epoch: u64) -> (id: String)
    ensures
        id@ == room_id_spec(session_key@, epoch),
        id@.len() == ROOM_ID_B64_LEN,
{
    let info = room_info(epoch);
    let mut okm = hkdf_sha256_expand(session_key.as_slice(), info.as_slice(), ROOM_ID_BYTES);
    let s = encode_base64_url_nopad(okm.as_slice());
    zeroize_vec(&mut okm);
    s
}

/// Derive a sealed per-peer handle for `(session_key, stable_peer_id,
/// epoch)`: 22 base64url characters of HKDF output.
pub fn sealed_peer_handle(session_key: &[u8; 32], stable_peer_id: &str, epoch: u64) -> (h: String)
    requires
        stable_peer_id.spec_bytes().len() <= usize::MAX - 64,
    ensures
        h@ == peer_handle_spec(session_key@, stable_peer_id.spec_bytes(), epoch),
        h@.len() == PEER_HANDLE_B64_LEN,
{
    let info = peer_info(stable_peer_id, epoch);
    let mut okm = hkdf_sha256_expand(session_key.as_slice(), info.as_slice(), PEER_HANDLE_BYTES);
    let s = encode_base64_url_nopad(okm.as_slice());
    zeroize_vec(&mut okm);
    s
}

/// Current and next epochs' blinded room ids, for seamless handoff at the
/// epoch boundary.
pub fn room_ids_for_handoff(session_key: &[u8; 32], now_ms: u64, epoch_secs: u64) -> (r: (String, String))
    ensures
        r.0@ == room_id_spec(session_key@, epoch_of(now_ms, epoch_secs) as u64),
        r.1@ == room_id_spec(session_key@, (epoch_of(now_ms, epoch_secs) + 1) as u64),
{
    let epoch = current_epoch(now_ms, epoch_secs);
    let current = blinded_room_id(session_key, epoch);
    let next = blinded_room_id(session_key, epoch.wrapping_add(1));
    assert(epoch < u64::MAX) by {
        assert(epoch as int <= now_ms as int / 1000);
    }
    (current, next)
}

/// Waiting out [`seconds_until_next_epoch`] lands exactly one epoch later.
pub proof fn lemma_wait_reaches_next_epoch(now_ms: u64, epoch_secs: u64)
    ensures
        ({
            let es = effective_secs(epoch_secs);
            let s = es - (now_ms as int / 1000) % es;
            (now_ms as int + 1000 * s) / 1000 / es == epoch_of(now_ms, epoch_secs) + 1
        }),
{
    let es = effective_secs(epoch_secs);
    let now_s = now_ms as int / 1000;
    let r = now_s % es;
    let s = es - r;
    assert((now_ms as int + 1000 * s) / 1000 == now_s + s) by (nonlinear_arith)
        requires now_s == now_ms as int / 1000, s >= 0;
    assert(now_s == es * (now_s / es) + r) by (nonlinear_arith)
        requires es > 0, r == now_s % es;
    assert((now_s + s) / es == now_s / es + 1) by (nonlinear_arith)
        requires es > 0, now_s == es * (now_s / es) + r, s == es - r, 0 <= r < es;
}

/// The room a client pre-joins as "next" is the room it computes as
/// "current" once the epoch has rolled over: for every key and any two times
/// one epoch apart.
pub proof fn lemma_handoff_next_is_later_current(key: Seq<u8>, t1: u64, t2: u64, epoch_secs: u64)
    requires
        epoch_of(t2, epoch_secs) == epoch_of(t1, epoch_secs) + 1,
    ensures
        room_id_spec(key, (epoch_of(t1, epoch_secs) + 1) as u64) == room_id_spec(key, epoch_of(t2, epoch_secs) as u64),
{
}

/// Every blinded room id lies inside the relay's accepted length window.
pub proof fn lemma_room_id_within_relay_bounds(key: Seq<u8>, epoch: u64)
    ensures
        ROOM_ID_MIN_LEN <= base64_nopad_len(ROOM_ID_BYTES as nat) <= ROOM_ID_MAX_LEN,
        base64_nopad_len(ROOM_ID_BYTES as nat) == ROOM_ID_B64_LEN,
        base64_nopad_len(PEER_HANDLE_BYTES as nat) == PEER_HANDLE_B64_LEN,
{
}

} // verus!
