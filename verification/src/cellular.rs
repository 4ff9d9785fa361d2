//! Pure pieces of the cellular relay client: connection state names, the
//! HTTPS base derived from the WebSocket base, control-frame detection and
//! query-value percent-encoding.
use vstd::prelude::*;
use vstd::string::StringSliceAdditionalSpecFns;
use crate::primitives::{ascii_chars, string_from_ascii};

verus! {

/// Relay WebSocket base (scheme + host).
pub const RELAY_WS_BASE: &'static str = "wss://relay.sassyconsultingllc.com";

/// Connection state surfaced to the UI.
#[derive(Debug, Clone, Copy, PartialEq, Eq, Structural)]
pub enum CellularState {
    Disconnected,
    Connecting,
    Connected,
    Error,
}

/// The state stored as byte `v`; unknown bytes read as `Disconnected`.
pub open spec fn state_of(v: u8) -> CellularState {
    if v == 1 { CellularState::Connecting }
    else if v == 2 { CellularState::Connected }
    else if v == 3 { CellularState::Error }
    else { CellularState::Disconnected }
}

/// The byte a state is stored as.
pub open spec fn state_byte(s: CellularState) -> u8 {
    match s {
        CellularState::Disconnected => 0,
        CellularState::Connecting => 1,
        CellularState::Connected => 2,
        CellularState::Error => 3,
    }
}

impl CellularState {
    /// Decode a stored state byte.
    pub fn from_u8(v: u8) -> (s: Self)
        ensures
            s == state_of(v),
    {
        match v {
            1 => CellularState::Connecting,
            2 => CellularState::Connected,
            3 => CellularState::Error,
            _ => CellularState::Disconnected,
        }
    }

    /// The byte this state is stored as.
    pub fn as_u8(self) -> (v: u8)
        ensures
            v == state_byte(self),
    {
        match self {
            CellularState::Disconnected => 0,
            CellularState::Connecting => 1,
            CellularState::Connected => 2,
            CellularState::Error => 3,
        }
    }

    /// Lower-case name of the state.
    pub fn as_str(self) -> (s: &'static str)
        ensures
            s@ == (match self {
                CellularState::Disconnected => "disconnected"@,
                CellularState::Connecting => "connecting"@,
                CellularState::Connected => "connected"@,
                CellularState::Error => "error"@,
            }),
    {
        match self {
            CellularState::Disconnected => "disconnected",
            CellularState::Connecting => "connecting",
            CellularState::Connected => "connected",
            CellularState::Error => "error",
        }
    }
}

/// Static configuration for a cellular session.
#[derive(Debug, Clone)]
pub struct CellularConfig {
    /// Relay room id.
    pub room_id: String,
    /// Human-readable device name.
    pub device_name: String,
    /// Stable per-install peer id.
    pub peer_id: String,
}

/// The first index at or after `i` where `p` occurs in `s`, or
/// `s.len() + 1` when it occurs nowhere there (an empty `p` occurs at `i`).
pub open spec fn first_match(s: Seq<char>, p: Seq<char>, i: int) -> int
    decreases s.len() + 1 - i,
{
    if i < 0 || i + p.len() > s.len() {
        s.len() + 1int
    } else if s.subrange(i, i + p.len()) == p {
        i
    } else {
        first_match(s, p, i + 1)
    }
}

/// `s` with the first occurrence of `from` replaced by `to`, unchanged
/// when `from` does not occur.
pub open spec fn replace_first(s: Seq<char>, from: Seq<char>, to: Seq<char>) -> Seq<char> {
    let i = first_match(s, from, 0);
    if i > s.len() {
        s
    } else {
        s.take(i) + to + s.skip(i + from.len())
    }
}

/// Calls `str::replacen` with a count of one, which (as std documents it)
/// replaces the first match of `from` by `to` and copies the rest.
#[verifier::external_body]
fn replacen_once(s: &str, from: &str, to: &str) -> (r: String)
    ensures
        r@ == replace_first(s@, from@, to@),
{
    s.replacen(from, to, 1)
}

/// HTTPS base for the token fetch: the WebSocket base with its scheme
/// swapped (`wss://` to `https://`, then `ws://` to `http://`).
pub fn https_base() -> (r: String)
    ensures
        r@ == replace_first(replace_first(RELAY_WS_BASE@, "wss://"@, "https://"@), "ws://"@, "http://"@),
{
    let a = replacen_once(RELAY_WS_BASE, "wss://", "https://");
    replacen_once(a.as_str(), "ws://", "http://")
}

/// Control-frame classifier: opcode in `0x10..=0x1F` and a TLV length that
/// exactly accounts for the frame.
pub open spec fn is_control_frame_spec(b: Seq<u8>) -> bool {
    b.len() >= 3 && 0x10 <= b[0] <= 0x1F && b.len() == 3 + b[1] as int + 256 * b[2] as int
}

/// Is this a non-audio control frame?
pub fn is_control_frame(b: &[u8]) -> (r: bool)
    ensures
        r == is_control_frame_spec(b@),
{
    if b.len() < 3 {
        return false;
    }
    let op = b[0];
    if !(0x10 <= op && op <= 0x1F) {
        return false;
    }
    let payload_len: usize = b[1] as usize + 256 * (b[2] as usize);
    b.len() == 3 + payload_len
}

/// RFC 3986 unreserved bytes, which pass through unescaped.
pub open spec fn is_unreserved(c: u8) -> bool {
    (0x61 <= c <= 0x7a) || (0x41 <= c <= 0x5a) || (0x30 <= c <= 0x39) || c == 0x2d || c == 0x5f || c == 0x2e
        || c == 0x7e
}

/// Upper-case hex digit for a nibble.
pub open spec fn hex_upper(n: u8) -> u8 {
    if n < 10 { (0x30 + n) as u8 } else { (0x41 + n - 10) as u8 }
}

/// Percent-encoding of one byte.
pub open spec fn escape_byte(c: u8) -> Seq<u8> {
    if is_unreserved(c) { seq![c] } else { seq![0x25u8, hex_upper(c / 16), hex_upper(c % 16)] }
}

/// Percent-encoding of a byte sequence.
pub open spec fn urlencode_spec(b: Seq<u8>) -> Seq<u8>
    decreases b.len(),
{
    if b.len() == 0 { Seq::empty() } else { urlencode_spec(b.drop_last()) + escape_byte(b.last()) }
}

proof fn lemma_urlencode_ascii(b: Seq<u8>)
    ensures
        forall|i: int| 0 <= i < urlencode_spec(b).len() ==> #[trigger] urlencode_spec(b)[i] < 128,
    decreases b.len(),
{
    if b.len() > 0 {
        lemma_urlencode_ascii(b.drop_last());
        let pre = urlencode_spec(b.drop_last());
        let e = escape_byte(b.last());
        assert(forall|j: int| 0 <= j < e.len() ==> e[j] < 128);
        assert forall|i: int| 0 <= i < urlencode_spec(b).len() implies #[trigger] urlencode_spec(b)[i] < 128 by {
            if i < pre.len() {
                assert(urlencode_spec(b)[i] == pre[i]);
            } else {
                assert(urlencode_spec(b)[i] == e[i - pre.len()]);
            }
        }
    }
}

fn hex_digit(n: u8) -> (d: u8)
    requires
        n < 16,
    ensures
        d == hex_upper(n),
{
    if n < 10 { 0x30 + n } else { 0x41 + n - 10 }
}

/// Minimal percent-encoding for query values: unreserved bytes pass
/// through, every other byte becomes `%XX` (upper-case hex).
pub fn urlencode(s: &str) -> (r: String)
    ensures
        r@ == ascii_chars(urlencode_spec(s.spec_bytes())),
{
    let bytes = s.as_bytes();
    let mut out: Vec<u8> = Vec::new();
    let mut i: usize = 0;
    while i < bytes.len()
        invariant
            i <= bytes@.len(),
            out@ == urlencode_spec(bytes@.take(i as int)),
        decreases bytes.len() - i,
    {
        let c = bytes[i];
        if (0x61 <= c && c <= 0x7a) || (0x41 <= c && c <= 0x5a) || (0x30 <= c && c <= 0x39) || c == 0x2d
            || c == 0x5f || c == 0x2e || c == 0x7e {
            out.push(c);
        } else {
            out.push(0x25);
            out.push(hex_digit(c / 16));
            out.push(hex_digit(c % 16));
        }
        assert(bytes@.take(i + 1).drop_last() =~= bytes@.take(i as int));
        i = i + 1;
        assert(out@ =~= urlencode_spec(bytes@.take(i as int)));
    }
    assert(bytes@.take(i as int) =~= bytes@);
    proof { lemma_urlencode_ascii(bytes@); }
    string_from_ascii(out)
}

} // verus!
