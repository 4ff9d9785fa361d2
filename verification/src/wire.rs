//! The audio data-plane frame shared by every endpoint:
//!
//! ```text
//! [channel:u8][subchannel:u8]
//! [sender_id_len:u8][sender_id]      at most MAX_SENDER_ID_LEN bytes
//! [device_name_len:u8][device_name]  at most MAX_DEVICE_NAME_LEN bytes
//! [timestamp:u64 LE][compressed_audio: rest]
//! ```
use vstd::prelude::*;
use vstd::bytes::{spec_u64_to_le_bytes, spec_u64_from_le_bytes, u64_from_le_bytes, u64_to_le_bytes};
use vstd::utf8::{valid_utf8, decode_utf8, encode_utf8};
use vstd::string::StringSliceAdditionalSpecFns;
use crate::buf::{append_bytes, copy_bytes};
use crate::text::decimal;

verus! {

/// Maximum sender id length on the wire (bytes).
pub const MAX_SENDER_ID_LEN: usize = 32;
/// Maximum device-name length on the wire (bytes).
pub const MAX_DEVICE_NAME_LEN: usize = 64;
/// Minimum decodable frame (empty id and name).
pub const MIN_FRAME_LEN: usize = 12;
/// Subchannel: main/default.
pub const SUBCH_MAIN: u8 = 0;
/// Subchannel A.
pub const SUBCH_A: u8 = 1;
/// Subchannel B.
pub const SUBCH_B: u8 = 2;

/// The first `max` bytes of `bytes` (all of them when shorter).
pub open spec fn clip(bytes: Seq<u8>, max: nat) -> Seq<u8> {
    if bytes.len() <= max { bytes } else { bytes.take(max as int) }
}

/// The frame that [`pack_wire_frame`] builds from the UTF-8 bytes of the
/// sender id and device name.
pub open spec fn wire_frame(
    channel: u8,
    subchannel: u8,
    id: Seq<u8>,
    name: Seq<u8>,
    timestamp: u64,
    audio: Seq<u8>,
) -> Seq<u8> {
    let i = clip(id, MAX_SENDER_ID_LEN as nat);
    let n = clip(name, MAX_DEVICE_NAME_LEN as nat);
    seq![channel, subchannel, i.len() as u8] + i + seq![n.len() as u8] + n
        + spec_u64_to_le_bytes(timestamp) + audio
}

/// The fields of a frame, with the id and name as raw bytes; `None` for a
/// frame that is too short or whose length fields exceed their maxima or
/// run past the end.
pub open spec fn unpack_spec(d: Seq<u8>) -> Option<(u8, u8, Seq<u8>, Seq<u8>, u64, Seq<u8>)> {
    if d.len() < MIN_FRAME_LEN {
        None
    } else {
        let il = d[2] as int;
        if il > MAX_SENDER_ID_LEN || d.len() < 3 + il + 1 {
            None
        } else {
            let nl = d[3 + il] as int;
            if nl > MAX_DEVICE_NAME_LEN || d.len() < 4 + il + nl + 8 {
                None
            } else {
                Some((
                    d[0],
                    d[1],
                    d.subrange(3, 3 + il),
                    d.subrange(4 + il, 4 + il + nl),
                    spec_u64_from_le_bytes(d.subrange(4 + il + nl, 12 + il + nl)),
                    d.subrange(12 + il + nl, d.len() as int),
                ))
            }
        }
    }
}

/// Why a frame is refused: too short, or which length field is bad.
pub open spec fn unpack_error(d: Seq<u8>) -> Seq<char> {
    if d.len() < MIN_FRAME_LEN {
        "Wire frame too short: "@ + decimal(d.len()) + " bytes"@
    } else if d[2] as int > MAX_SENDER_ID_LEN || d.len() < 3 + d[2] as int + 1 {
        "Invalid sender_id length: "@ + decimal(d[2] as nat) + ""@
    } else {
        "Invalid device_name length: "@ + decimal(d[3 + d[2] as int] as nat) + ""@
    }
}

/// What `String::from_utf8_lossy` returns for a byte sequence.
pub uninterp spec fn lossy_utf8(bytes: Seq<u8>) -> Seq<char>;

/// Calls `String::from_utf8_lossy` and takes an owned copy. Its documentation
/// says that valid UTF-8 input comes back unchanged; for invalid input, which
/// bytes become U+FFFD is left to the name `lossy_utf8`.
#[verifier::external_body]
pub(crate) fn lossy_string(bytes: &[u8]) -> (s: String)
    ensures
        s@ == lossy_utf8(bytes@),
        valid_utf8(bytes@) ==> s@ == decode_utf8(bytes@),
{
    String::from_utf8_lossy(bytes).into_owned()
}

/// Milliseconds since the unix epoch, from `SystemTime::now()`; 0 when the
/// clock reads before the epoch. Nothing is promised of the value.
#[verifier::external_body]
pub fn now_ms() -> u64 {
    std::time::SystemTime::now()
        .duration_since(std::time::UNIX_EPOCH)
        .map(|d| d.as_millis() as u64)
        .unwrap_or(0)
}

/// Encapsulate one Opus frame for transport. The id and name are clipped to
/// their maximum byte lengths.
pub fn pack_wire_frame(
    channel: u8,
    subchannel: u8,
    sender_id: &str,
    device_name: &str,
    timestamp: u64,
    compressed: &[u8],
) -> (packet: Vec<u8>)
    ensures
        packet@ == wire_frame(channel, subchannel, sender_id.spec_bytes(), device_name.spec_bytes(), timestamp, compressed@),
{
    let id_bytes = sender_id.as_bytes();
    let id_len: usize = if id_bytes.len() < MAX_SENDER_ID_LEN { id_bytes.len() } else { MAX_SENDER_ID_LEN };
    let name_bytes = device_name.as_bytes();
    let name_len: usize = if name_bytes.len() < MAX_DEVICE_NAME_LEN { name_bytes.len() } else { MAX_DEVICE_NAME_LEN };

    let mut packet: Vec<u8> = Vec::new();
    packet.push(channel);
    packet.push(subchannel);
    packet.push(id_len as u8);
    append_bytes(&mut packet, &id_bytes[0..id_len]);
    packet.push(name_len as u8);
    append_bytes(&mut packet, &name_bytes[0..name_len]);
    let ts = u64_to_le_bytes(timestamp);
    append_bytes(&mut packet, ts.as_slice());
    append_bytes(&mut packet, compressed);
    proof {
        let i = clip(id_bytes@, MAX_SENDER_ID_LEN as nat);
        let n = clip(name_bytes@, MAX_DEVICE_NAME_LEN as nat);
        assert(id_bytes@.subrange(0, id_len as int) =~= i);
        assert(name_bytes@.subrange(0, name_len as int) =~= n);
        assert(packet@ =~= wire_frame(channel, subchannel, sender_id.spec_bytes(), device_name.spec_bytes(), timestamp, compressed@));
    }
    packet
}

/// Parse a wire frame into `(channel, subchannel, sender_id, device_name,
/// timestamp, compressed_audio)`. Hostile length fields are checked against
/// the maxima and the buffer length.
pub fn unpack_wire_frame(data: &[u8]) -> (r: Result<(u8, u8, String, String, u64, Vec<u8>), String>)
    ensures
        match unpack_spec(data@) {
            None => (r matches Err(e) && e@ == unpack_error(data@)),
            Some((c, s, ib, nb, ts, a)) => r matches Ok((c2, s2, id, name, ts2, a2)) && c2 == c && s2 == s
                && id@ == lossy_utf8(ib) && name@ == lossy_utf8(nb) && ts2 == ts && a2@ == a
                && (valid_utf8(ib) ==> id@ == decode_utf8(ib))
                && (valid_utf8(nb) ==> name@ == decode_utf8(nb)),
        },
{
    if data.len() < MIN_FRAME_LEN {
        return Err(crate::text::with_number("Wire frame too short: ", data.len() as u64, " bytes"));
    }
    let channel = data[0];
    let subchannel = data[1];
    let id_len = data[2] as usize;
    if id_len > MAX_SENDER_ID_LEN || data.len() < 3 + id_len + 1 {
        return Err(crate::text::with_number("Invalid sender_id length: ", id_len as u64, ""));
    }
    let sender_id = lossy_string(&data[3..3 + id_len]);
    let name_len_offset = 3 + id_len;
    let name_len = data[name_len_offset] as usize;
    if name_len > MAX_DEVICE_NAME_LEN || data.len() < name_len_offset + 1 + name_len + 8 {
        return Err(crate::text::with_number("Invalid device_name length: ", name_len as u64, ""));
    }
    let name_start = name_len_offset + 1;
    let device_name = lossy_string(&data[name_start..name_start + name_len]);
    let ts_offset = name_start + name_len;
    let timestamp = u64_from_le_bytes(&data[ts_offset..ts_offset + 8]);
    let compressed = copy_bytes(&data[ts_offset + 8..data.len()]);
    Ok((channel, subchannel, sender_id, device_name, timestamp, compressed))
}

/// Unpacking a packed frame gives back every field: the channel, the
/// subchannel, the sender id and device name (as long as their UTF-8 bytes fit
/// the maxima), the timestamp and the audio.
pub proof fn lemma_wire_round_trip(
    channel: u8,
    subchannel: u8,
    id: Seq<char>,
    name: Seq<char>,
    timestamp: u64,
    audio: Seq<u8>,
)
    requires
        encode_utf8(id).len() <= MAX_SENDER_ID_LEN,
        encode_utf8(name).len() <= MAX_DEVICE_NAME_LEN,
    ensures
        unpack_spec(wire_frame(channel, subchannel, encode_utf8(id), encode_utf8(name), timestamp, audio))
            == Some((channel, subchannel, encode_utf8(id), encode_utf8(name), timestamp, audio)),
        valid_utf8(encode_utf8(id)) && decode_utf8(encode_utf8(id)) == id,
        valid_utf8(encode_utf8(name)) && decode_utf8(encode_utf8(name)) == name,
{
    broadcast use vstd::utf8::encode_utf8_valid_utf8, vstd::utf8::encode_utf8_decode_utf8;
    let ib = encode_utf8(id);
    let nb = encode_utf8(name);
    let d = wire_frame(channel, subchannel, ib, nb, timestamp, audio);
    vstd::bytes::lemma_auto_spec_u64_to_from_le_bytes();
    let il = ib.len() as int;
    let nl = nb.len() as int;
    assert(clip(ib, MAX_SENDER_ID_LEN as nat) == ib);
    assert(clip(nb, MAX_DEVICE_NAME_LEN as nat) == nb);
    assert(d.len() == 12 + il + nl + audio.len());
    assert(d[2] as int == il);
    assert(d[3 + il] as int == nl);
    assert(d.subrange(3, 3 + il) =~= ib);
    assert(d.subrange(4 + il, 4 + il + nl) =~= nb);
    assert(d.subrange(4 + il + nl, 12 + il + nl) =~= spec_u64_to_le_bytes(timestamp));
    assert(d.subrange(12 + il + nl, d.len() as int) =~= audio);
}

} // verus!
