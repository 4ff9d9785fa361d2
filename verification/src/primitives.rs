//! Trusted boundary to the outside cryptography and encoding crates: each
//! item here makes one outside call and states what that crate documents.
use vstd::prelude::*;
use sha2::Digest;
use base64::Engine;

verus! {

/// HKDF-SHA256 (RFC 5869, no salt): `len` bytes of output keying material
/// expanded from `ikm` with context `info`.
pub uninterp spec fn hkdf_sha256(ikm: Seq<u8>, info: Seq<u8>, len: nat) -> Seq<u8>;

/// Calls `hkdf::Hkdf::<sha2::Sha256>::new(None, ikm)` and its `expand`. The
/// contract claims that the output has the requested length and is the named
/// function of the key material, the context and the length. `expand` only
/// fails above 255 * 32 bytes, which `requires` leaves out.
#[verifier::external_body]
pub(crate) fn hkdf_sha256_expand(ikm: &[u8], info: &[u8], len: usize) -> (okm: Vec<u8>)
    requires
        len <= 255 * 32,
    ensures
        okm@.len() == len,
        okm@ == hkdf_sha256(ikm@, info@, len as nat),
{
    let hk = hkdf::Hkdf::<sha2::Sha256>::new(None, ikm);
    let mut okm = vec![0u8; len];
    hk.expand(info, &mut okm).expect("output length is within the HKDF limit");
    okm
}

/// SHA-256 digest of a byte sequence.
pub uninterp spec fn sha256(data: Seq<u8>) -> Seq<u8>;

/// Calls `sha2::Sha256::digest`. The contract claims a 32-byte result that
/// is the named function of the input.
#[verifier::external_body]
pub(crate) fn sha256_digest(data: &[u8]) -> (d: Vec<u8>)
    ensures
        d@.len() == 32,
        d@ == sha256(data@),
{
    sha2::Sha256::digest(data).to_vec()
}

/// Length of unpadded base64 output for `n` input bytes.
pub open spec fn base64_nopad_len(n: nat) -> nat {
    4 * (n / 3) + if n % 3 == 0 { 0nat } else if n % 3 == 1 { 2nat } else { 3nat }
}

/// Length of padded base64 output for `n` input bytes.
pub open spec fn base64_padded_len(n: nat) -> nat {
    4 * (n / 3) + if n % 3 == 0 { 0nat } else { 4nat }
}

/// URL-safe base64 without padding (RFC 4648 section 5).
pub uninterp spec fn base64_url_nopad(data: Seq<u8>) -> Seq<char>;

/// Calls `base64::engine::general_purpose::URL_SAFE_NO_PAD.encode`. The
/// contract claims the named result and the output length that the crate's
/// `encoded_len` computes; the input is small enough that it cannot overflow.
#[verifier::external_body]
pub(crate) fn encode_base64_url_nopad(data: &[u8]) -> (s: String)
    requires
        data@.len() <= 0x1000_0000,
    ensures
        s@ == base64_url_nopad(data@),
        s@.len() == base64_nopad_len(data@.len()),
{
    base64::engine::general_purpose::URL_SAFE_NO_PAD.encode(data)
}

/// Standard base64 with padding (RFC 4648 section 4).
pub uninterp spec fn base64_standard(data: Seq<u8>) -> Seq<char>;

/// Calls `base64::engine::general_purpose::STANDARD.encode`. The contract
/// claims the named result and the padded output length.
#[verifier::external_body]
pub(crate) fn encode_base64_standard(data: &[u8]) -> (s: String)
    requires
        data@.len() <= 0x1000_0000,
    ensures
        s@ == base64_standard(data@),
        s@.len() == base64_padded_len(data@.len()),
{
    base64::engine::general_purpose::STANDARD.encode(data)
}

/// Calls `zeroize::Zeroize::zeroize` on a vector, which overwrites every
/// element with zero and then clears the vector.
#[verifier::external_body]
pub(crate) fn zeroize_vec(v: &mut Vec<u8>)
    ensures
        final(v)@ == Seq::<u8>::empty(),
{
    zeroize::Zeroize::zeroize(v);
}

/// Calls `zeroize::Zeroize::zeroize` on a 32-byte key, which overwrites
/// every byte with zero.
#[verifier::external_body]
pub(crate) fn zeroize_array32(key: &mut [u8; 32])
    ensures
        final(key)@ == Seq::new(32, |i: int| 0u8),
{
    zeroize::Zeroize::zeroize(key);
}

/// Calls `rand::Rng::gen_range(1..=u64::MAX)` on the thread-local generator:
/// a uniformly random nonzero value. Only its range is promised.
#[verifier::external_body]
pub(crate) fn random_nonzero_u64() -> (v: u64)
    ensures
        v != 0,
{
    rand::Rng::gen_range(&mut rand::thread_rng(), 1..=u64::MAX)
}

/// Calls `rand::random::<u32>()`: any value may come back.
#[verifier::external_body]
pub(crate) fn random_u32() -> u32 {
    rand::random::<u32>()
}

/// The characters of an ASCII byte sequence.
pub open spec fn ascii_chars(b: Seq<u8>) -> Seq<char> {
    b.map_values(|x: u8| x as char)
}

/// Calls `String::from_utf8` on bytes that are all ASCII; its documentation
/// says valid UTF-8 is accepted as is, and ASCII decodes byte for byte.
#[verifier::external_body]
pub(crate) fn string_from_ascii(bytes: Vec<u8>) -> (s: String)
    requires
        forall|i: int| 0 <= i < bytes@.len() ==> bytes@[i] < 128,
    ensures
        s@ == ascii_chars(bytes@),
{
    String::from_utf8(bytes).expect("ASCII is valid UTF-8")
}

/// One shift of the reflected CRC-32 register (polynomial `0xEDB88320`).
pub open spec fn crc32_shift(c: u32) -> u32 {
    if c & 1u32 == 1u32 { (c >> 1u32) ^ 0xEDB8_8320u32 } else { c >> 1u32 }
}

/// The register after absorbing byte `b`: the byte is xored into the low
/// bits, then the register is shifted eight times.
pub open spec fn crc32_byte(c: u32, b: u8) -> u32 {
    let x = c ^ (b as u32);
    crc32_shift(crc32_shift(crc32_shift(crc32_shift(crc32_shift(crc32_shift(crc32_shift(crc32_shift(x))))))))
}

/// The register after the bytes of `data`, starting from all ones.
pub open spec fn crc32_register(data: Seq<u8>) -> u32
    decreases data.len(),
{
    if data.len() == 0 { 0xFFFF_FFFFu32 } else { crc32_byte(crc32_register(data.drop_last()), data.last()) }
}

/// CRC-32 (IEEE, as in zlib and Ethernet) of a byte sequence: the final
/// register inverted.
pub open spec fn crc32(data: Seq<u8>) -> u32 {
    crc32_register(data) ^ 0xFFFF_FFFFu32
}

proof fn lemma_crc32_byte_injective(c: u32, d: u32, b: u8)
    ensures
        c != d ==> crc32_byte(c, b) != crc32_byte(d, b),
{
    let x = c ^ (b as u32);
    let y = d ^ (b as u32);
    assert(c != d ==> x != y) by (bit_vector)
        requires
            x == c ^ (b as u32),
            y == d ^ (b as u32);
    assert(x != y ==> crc32_shift(x) != crc32_shift(y)) by (bit_vector);
    let x1 = crc32_shift(x);
    let y1 = crc32_shift(y);
    assert(x1 != y1 ==> crc32_shift(x1) != crc32_shift(y1)) by (bit_vector);
    let x2 = crc32_shift(x1);
    let y2 = crc32_shift(y1);
    assert(x2 != y2 ==> crc32_shift(x2) != crc32_shift(y2)) by (bit_vector);
    let x3 = crc32_shift(x2);
    let y3 = crc32_shift(y2);
    assert(x3 != y3 ==> crc32_shift(x3) != crc32_shift(y3)) by (bit_vector);
    let x4 = crc32_shift(x3);
    let y4 = crc32_shift(y3);
    assert(x4 != y4 ==> crc32_shift(x4) != crc32_shift(y4)) by (bit_vector);
    let x5 = crc32_shift(x4);
    let y5 = crc32_shift(y4);
    assert(x5 != y5 ==> crc32_shift(x5) != crc32_shift(y5)) by (bit_vector);
    let x6 = crc32_shift(x5);
    let y6 = crc32_shift(y5);
    assert(x6 != y6 ==> crc32_shift(x6) != crc32_shift(y6)) by (bit_vector);
    let x7 = crc32_shift(x6);
    let y7 = crc32_shift(y6);
    assert(x7 != y7 ==> crc32_shift(x7) != crc32_shift(y7)) by (bit_vector);
}

proof fn lemma_crc32_register_changed(a: Seq<u8>, b: Seq<u8>, i: int)
    requires
        a.len() == b.len(),
        0 <= i < a.len(),
        a[i] != b[i],
        forall|j: int| 0 <= j < a.len() && j != i ==> a[j] == b[j],
    ensures
        crc32_register(a) != crc32_register(b),
    decreases a.len(),
{
    let pa = a.drop_last();
    let pb = b.drop_last();
    if i == a.len() - 1 {
        assert(pa =~= pb);
        let r = crc32_register(pa);
        let la: u8 = a.last();
        let lb: u8 = b.last();
        let x = r ^ (la as u32);
        let y = r ^ (lb as u32);
        assert(la != lb);
        assert(la != lb ==> x != y) by (bit_vector)
            requires
                x == r ^ (la as u32),
                y == r ^ (lb as u32);
        lemma_crc32_shift_injective(x, y);
    } else {
        lemma_crc32_register_changed(pa, pb, i);
        assert(a.last() == b.last());
        lemma_crc32_byte_injective(crc32_register(pa), crc32_register(pb), a.last());
    }
}

proof fn lemma_crc32_shift_injective(x: u32, y: u32)
    requires
        x != y,
    ensures
        crc32_shift(crc32_shift(crc32_shift(crc32_shift(crc32_shift(crc32_shift(crc32_shift(crc32_shift(x))))))))
            != crc32_shift(crc32_shift(crc32_shift(crc32_shift(crc32_shift(crc32_shift(crc32_shift(crc32_shift(y)))))))),
{
    lemma_crc32_byte_injective(x, y, 0);
    assert(x ^ 0u32 == x && y ^ 0u32 == y) by (bit_vector);
}

/// The checksum detects any single changed byte: two byte strings of the
/// same length that differ in exactly one position have different CRC-32s.
pub proof fn lemma_crc32_detects_one_changed_byte(a: Seq<u8>, b: Seq<u8>, i: int)
    requires
        a.len() == b.len(),
        0 <= i < a.len(),
        a[i] != b[i],
        forall|j: int| 0 <= j < a.len() && j != i ==> a[j] == b[j],
    ensures
        crc32(a) != crc32(b),
{
    lemma_crc32_register_changed(a, b, i);
    let ra = crc32_register(a);
    let rb = crc32_register(b);
    assert(ra != rb ==> ra ^ 0xFFFF_FFFFu32 != rb ^ 0xFFFF_FFFFu32) by (bit_vector);
}

/// Calls `crc32fast::hash`, which computes the standard CRC-32 (IEEE) of
/// its input, as `crc32` states it bit by bit.
#[verifier::external_body]
pub(crate) fn crc32_of(data: &[u8]) -> (c: u32)
    ensures
        c == crc32(data@),
{
    crc32fast::hash(data)
}

} // verus!
