//! Hybrid post-quantum key agreement: X25519 and ML-KEM-768 run side by
//! side and their two 32-byte secrets are combined with HKDF-SHA256 over
//! `x25519_secret || mlkem_secret` (info `sassytalkie-hybrid-pqc-v1`) into
//! one 32-byte session key, which stays secret as long as either primitive
//! holds. The handshake messages are the X25519 public key followed by the
//! ML-KEM encapsulation key (initiator) or ciphertext (responder). A
//! suite is negotiated: hybrid only when both sides support it.
use vstd::prelude::*;
use ml_kem::{Decapsulate, Encapsulate, Kem, KeyExport, KeyInit};
use crate::crypto::{CryptoEngine, x25519_keypair, x25519_shared};
use crate::primitives::{hkdf_sha256, hkdf_sha256_expand, zeroize_vec};
use crate::text::decimal;
use vstd::string::StringExecFns;

verus! {

/// X25519 public key length.
pub const X25519_PUBLIC_LEN: usize = 32;
/// Length of each raw shared secret.
pub const SHARED_SECRET_LEN: usize = 32;
/// Serialized ML-KEM-768 encapsulation key length.
pub const MLKEM768_ENCAPS_KEY_LEN: usize = 1184;
/// ML-KEM-768 ciphertext length.
pub const MLKEM768_CIPHERTEXT_LEN: usize = 1088;
/// ML-KEM decapsulation seed length.
pub const MLKEM_SEED_LEN: usize = 64;
/// Initiator message length: X25519 key and encapsulation key.
pub const HYBRID_INIT_MSG_LEN: usize = X25519_PUBLIC_LEN + MLKEM768_ENCAPS_KEY_LEN;
/// Responder message length: X25519 key and ciphertext.
pub const HYBRID_RESP_MSG_LEN: usize = X25519_PUBLIC_LEN + MLKEM768_CIPHERTEXT_LEN;

/// The HKDF info `sassytalkie-hybrid-pqc-v1`.
pub open spec fn hybrid_info() -> Seq<u8> {
    seq![0x73u8, 0x61, 0x73, 0x73, 0x79, 0x74, 0x61, 0x6c, 0x6b, 0x69, 0x65, 0x2d, 0x68, 0x79, 0x62, 0x72,
        0x69, 0x64, 0x2d, 0x70, 0x71, 0x63, 0x2d, 0x76, 0x31]
}

/// The session key from the two raw secrets.
pub open spec fn hybrid_key(x25519_secret: Seq<u8>, mlkem_secret: Seq<u8>) -> Seq<u8> {
    hkdf_sha256(x25519_secret + mlkem_secret, hybrid_info(), 32)
}

/// The ML-KEM-768 encapsulation key belonging to a decapsulation seed.
pub uninterp spec fn mlkem768_encaps_key(seed: Seq<u8>) -> Seq<u8>;

/// The ML-KEM-768 shared secret a decapsulation seed recovers from a
/// ciphertext (implicit rejection gives a pseudorandom value for a foreign
/// ciphertext).
pub uninterp spec fn mlkem768_decapsulate(seed: Seq<u8>, ct: Seq<u8>) -> Seq<u8>;

/// Whether bytes decode to a valid ML-KEM-768 encapsulation key.
pub uninterp spec fn mlkem768_ek_valid(ek: Seq<u8>) -> bool;

/// Calls `MlKem768::generate_keypair` (system RNG) and exports the
/// decapsulation key's 64-byte seed and the encapsulation key's bytes. The
/// contract claims the lengths and that the encapsulation key is the one
/// the seed determines; the values are random.
#[verifier::external_body]
fn mlkem768_keypair() -> (r: ([u8; 64], Vec<u8>))
    ensures
        r.1@.len() == MLKEM768_ENCAPS_KEY_LEN,
        r.1@ == mlkem768_encaps_key(r.0@),
{
    let (dk, ek) = ml_kem::MlKem768::generate_keypair();
    let seed: [u8; 64] = dk.to_bytes().into();
    (seed, ek.to_bytes().to_vec())
}

/// Rebuilds the decapsulation key from its seed
/// (`DecapsulationKey::<MlKem768>::new`) and calls `decapsulate` on a
/// ciphertext of the right length. The contract claims a 32-byte result,
/// the named function of seed and ciphertext.
#[verifier::external_body]
fn mlkem768_decapsulate_exec(seed: &[u8; 64], ct: &[u8]) -> (ss: Vec<u8>)
    requires
        ct@.len() == MLKEM768_CIPHERTEXT_LEN,
    ensures
        ss@.len() == SHARED_SECRET_LEN,
        ss@ == mlkem768_decapsulate(seed@, ct@),
{
    let dk = ml_kem::DecapsulationKey::<ml_kem::MlKem768>::new(&(*seed).into());
    let ct = ml_kem::Ciphertext::<ml_kem::MlKem768>::try_from(ct).expect("length checked by the caller");
    dk.decapsulate(&ct).to_vec()
}

/// Calls `EncapsulationKey::<MlKem768>::new` on bytes of the right length:
/// whether they validate as an encapsulation key.
#[verifier::external_body]
fn mlkem768_check_ek(ek: &[u8]) -> (ok: bool)
    requires
        ek@.len() == MLKEM768_ENCAPS_KEY_LEN,
    ensures
        ok == mlkem768_ek_valid(ek@),
{
    match ml_kem::Key::<ml_kem::EncapsulationKey<ml_kem::MlKem768>>::try_from(ek) {
        Ok(k) => ml_kem::EncapsulationKey::<ml_kem::MlKem768>::new(&k).is_ok(),
        Err(_) => false,
    }
}

/// Calls `Encapsulate::encapsulate` (system RNG) on a valid encapsulation
/// key: a 1088-byte ciphertext and a 32-byte shared secret, both random.
#[verifier::external_body]
fn mlkem768_encapsulate(ek: &[u8]) -> (r: (Vec<u8>, Vec<u8>))
    requires
        ek@.len() == MLKEM768_ENCAPS_KEY_LEN,
        mlkem768_ek_valid(ek@),
    ensures
        r.0@.len() == MLKEM768_CIPHERTEXT_LEN,
        r.1@.len() == SHARED_SECRET_LEN,
{
    let k = ml_kem::Key::<ml_kem::EncapsulationKey<ml_kem::MlKem768>>::try_from(ek).expect("length checked by the caller");
    let key = ml_kem::EncapsulationKey::<ml_kem::MlKem768>::new(&k).expect("validated by the caller");
    let (ct, ss) = key.encapsulate();
    (ct.to_vec(), ss.to_vec())
}

/// The wrong-length error: `<what> wrong length: <got> (expected <n>)`.
pub open spec fn length_error(what: Seq<char>, got: nat, expected: nat) -> Seq<char> {
    what + " wrong length: "@ + decimal(got) + " (expected "@ + decimal(expected) + ")"@
}

fn length_message(what: &str, got: usize, expected: usize) -> (s: String)
    ensures
        s@ == length_error(what@, got as nat, expected as nat),
{
    let mut s = what.to_owned();
    let head = crate::text::with_number(" wrong length: ", got as u64, " (expected ");
    let tail = crate::text::with_number("", expected as u64, ")");
    s.append(head.as_str());
    s.append(tail.as_str());
    proof {
        reveal_strlit("");
        assert(""@ + decimal(expected as nat) + ")"@ =~= decimal(expected as nat) + ")"@);
        assert(s@ =~= length_error(what@, got as nat, expected as nat));
    }
    s
}

/// Combine the two raw secrets into the session key; the concatenated
/// input is wiped afterwards.
fn combine_secrets(x25519_secret: &[u8], mlkem_secret: &[u8]) -> (key: [u8; 32])
    ensures
        key@ == hybrid_key(x25519_secret@, mlkem_secret@),
{
    let mut ikm: Vec<u8> = Vec::new();
    crate::buf::append_bytes(&mut ikm, x25519_secret);
    crate::buf::append_bytes(&mut ikm, mlkem_secret);
    let info: Vec<u8> = vec![0x73u8, 0x61, 0x73, 0x73, 0x79, 0x74, 0x61, 0x6c, 0x6b, 0x69, 0x65, 0x2d, 0x68, 0x79,
        0x62, 0x72, 0x69, 0x64, 0x2d, 0x70, 0x71, 0x63, 0x2d, 0x76, 0x31];
    assert(info@ =~= hybrid_info());
    let okm = hkdf_sha256_expand(ikm.as_slice(), info.as_slice(), 32);
    zeroize_vec(&mut ikm);
    let mut key = [0u8; 32];
    let mut i: usize = 0;
    while i < 32
        invariant
            i <= 32,
            okm@.len() == 32,
            forall|j: int| 0 <= j < i ==> key@[j] == okm@[j],
        decreases 32 - i,
    {
        key[i] = okm[i];
        i = i + 1;
    }
    assert(key@ =~= okm@);
    key
}

fn split_message(bytes: &[u8]) -> (r: ([u8; 32], Vec<u8>))
    requires
        bytes@.len() >= X25519_PUBLIC_LEN,
    ensures
        r.0@ == bytes@.take(32),
        r.1@ == bytes@.skip(32),
{
    let mut key = [0u8; 32];
    let mut i: usize = 0;
    while i < 32
        invariant
            i <= 32,
            bytes@.len() >= 32,
            forall|j: int| 0 <= j < i ==> key@[j] == bytes@[j],
        decreases 32 - i,
    {
        key[i] = bytes[i];
        i = i + 1;
    }
    let mut rest: Vec<u8> = Vec::new();
    let mut k: usize = 32;
    while k < bytes.len()
        invariant
            32 <= k <= bytes@.len(),
            rest@ == bytes@.subrange(32, k as int),
        decreases bytes.len() - k,
    {
        rest.push(bytes[k]);
        k = k + 1;
        assert(rest@ =~= bytes@.subrange(32, k as int));
    }
    assert(key@ =~= bytes@.take(32));
    assert(rest@ =~= bytes@.skip(32));
    (key, rest)
}

fn join_message(key: &[u8; 32], body: &Vec<u8>) -> (out: Vec<u8>)
    ensures
        out@ == key@ + body@,
{
    let mut out: Vec<u8> = Vec::new();
    let mut i: usize = 0;
    while i < 32
        invariant
            i <= 32,
            out@ == key@.take(i as int),
        decreases 32 - i,
    {
        out.push(key[i]);
        i = i + 1;
        assert(out@ =~= key@.take(i as int));
    }
    assert(key@.take(32) =~= key@);
    crate::buf::append_bytes(&mut out, body.as_slice());
    out
}

/// The initiator's handshake message.
pub struct HybridInitiatorMessage {
    /// X25519 ephemeral public key.
    pub x25519_public: [u8; 32],
    /// Serialized ML-KEM-768 encapsulation key.
    pub mlkem_encaps_key: Vec<u8>,
}

impl HybridInitiatorMessage {
    /// `x25519_public || mlkem_encaps_key`.
    pub fn to_bytes(&self) -> (b: Vec<u8>)
        ensures
            b@ == self.x25519_public@ + self.mlkem_encaps_key@,
    {
        join_message(&self.x25519_public, &self.mlkem_encaps_key)
    }

    /// Parse the wire layout; only a message of exactly the initiator length
    /// is accepted.
    pub fn from_bytes(bytes: &[u8]) -> (r: Result<Self, String>)
        ensures
            r is Ok <==> bytes@.len() == HYBRID_INIT_MSG_LEN,
            r matches Ok(m) ==> m.x25519_public@ == bytes@.take(32) && m.mlkem_encaps_key@ == bytes@.skip(32),
            r matches Err(e) ==> e@ == length_error("Hybrid initiator message"@, bytes@.len(), HYBRID_INIT_MSG_LEN as nat),
    {
        if bytes.len() != HYBRID_INIT_MSG_LEN {
            return Err(length_message("Hybrid initiator message", bytes.len(), HYBRID_INIT_MSG_LEN));
        }
        let (x25519_public, mlkem_encaps_key) = split_message(bytes);
        Ok(HybridInitiatorMessage { x25519_public, mlkem_encaps_key })
    }
}

/// The responder's handshake message.
pub struct HybridResponderMessage {
    /// X25519 ephemeral public key.
    pub x25519_public: [u8; 32],
    /// ML-KEM-768 ciphertext.
    pub mlkem_ciphertext: Vec<u8>,
}

impl HybridResponderMessage {
    /// `x25519_public || mlkem_ciphertext`.
    pub fn to_bytes(&self) -> (b: Vec<u8>)
        ensures
            b@ == self.x25519_public@ + self.mlkem_ciphertext@,
    {
        join_message(&self.x25519_public, &self.mlkem_ciphertext)
    }

    /// Parse the wire layout; only a message of exactly the responder length
    /// is accepted.
    pub fn from_bytes(bytes: &[u8]) -> (r: Result<Self, String>)
        ensures
            r is Ok <==> bytes@.len() == HYBRID_RESP_MSG_LEN,
            r matches Ok(m) ==> m.x25519_public@ == bytes@.take(32) && m.mlkem_ciphertext@ == bytes@.skip(32),
            r matches Err(e) ==> e@ == length_error("Hybrid responder message"@, bytes@.len(), HYBRID_RESP_MSG_LEN as nat),
    {
        if bytes.len() != HYBRID_RESP_MSG_LEN {
            return Err(length_message("Hybrid responder message", bytes.len(), HYBRID_RESP_MSG_LEN));
        }
        let (x25519_public, mlkem_ciphertext) = split_message(bytes);
        Ok(HybridResponderMessage { x25519_public, mlkem_ciphertext })
    }
}

/// Serialized handshake messages parse back to the same fields: a
/// 32-byte key followed by a body of the protocol length.
pub proof fn lemma_message_round_trip(key: Seq<u8>, body: Seq<u8>)
    requires
        key.len() == X25519_PUBLIC_LEN,
    ensures
        (key + body).take(32) == key,
        (key + body).skip(32) == body,
        (key + body).len() == X25519_PUBLIC_LEN + body.len(),
{
    assert((key + body).take(32) =~= key);
    assert((key + body).skip(32) =~= body);
}

/// The initiator side of the hybrid exchange.
pub struct HybridKeyExchange {
    x25519_secret: x25519_dalek::EphemeralSecret,
    x25519_public: [u8; 32],
    mlkem_seed: [u8; 64],
    mlkem_ek_bytes: Vec<u8>,
}

impl HybridKeyExchange {
    /// Our ML-KEM decapsulation seed.
    pub closed spec fn seed_spec(&self) -> Seq<u8> {
        self.mlkem_seed@
    }

    /// Our X25519 public key and ML-KEM encapsulation key.
    pub closed spec fn public_spec(&self) -> (Seq<u8>, Seq<u8>) {
        (self.x25519_public@, self.mlkem_ek_bytes@)
    }

    /// Fresh ephemeral material for both primitives.
    pub fn new() -> (kx: Self)
        ensures
            kx.public_spec().1.len() == MLKEM768_ENCAPS_KEY_LEN,
            kx.public_spec().1 == mlkem768_encaps_key(kx.seed_spec()),
    {
        let (x25519_secret, x25519_public) = x25519_keypair();
        let (mlkem_seed, mlkem_ek_bytes) = mlkem768_keypair();
        HybridKeyExchange { x25519_secret, x25519_public, mlkem_seed, mlkem_ek_bytes }
    }

    /// The message the initiator sends.
    pub fn initiator_message(&self) -> (m: HybridInitiatorMessage)
        ensures
            m.x25519_public@ == self.public_spec().0,
            m.mlkem_encaps_key@ == self.public_spec().1,
    {
        HybridInitiatorMessage {
            x25519_public: self.x25519_public,
            mlkem_encaps_key: crate::buf::copy_bytes(self.mlkem_ek_bytes.as_slice()),
        }
    }

    /// Complete the exchange with the responder's reply: X25519 against its
    /// public key, ML-KEM decapsulation of its ciphertext, combined into the
    /// session key. Fails when the ciphertext has the wrong length.
    pub fn complete(self, response: &HybridResponderMessage) -> (r: Result<[u8; 32], String>)
        ensures
            r is Ok <==> response.mlkem_ciphertext@.len() == MLKEM768_CIPHERTEXT_LEN,
            r matches Err(e) ==> e@ == length_error("ML-KEM-768 ciphertext"@, response.mlkem_ciphertext@.len(), MLKEM768_CIPHERTEXT_LEN as nat),
            r matches Ok(k) ==> exists|x: Seq<u8>| x.len() == SHARED_SECRET_LEN
                && k@ == #[trigger] hybrid_key(x, mlkem768_decapsulate(self.seed_spec(), response.mlkem_ciphertext@)),
    {
        let x = x25519_shared(self.x25519_secret, &response.x25519_public);
        if response.mlkem_ciphertext.len() != MLKEM768_CIPHERTEXT_LEN {
            return Err(length_message("ML-KEM-768 ciphertext", response.mlkem_ciphertext.len(), MLKEM768_CIPHERTEXT_LEN));
        }
        let mut m = mlkem768_decapsulate_exec(&self.mlkem_seed, response.mlkem_ciphertext.as_slice());
        let key = combine_secrets(&x, m.as_slice());
        assert(key@ == hybrid_key(x@, mlkem768_decapsulate(self.seed_spec(), response.mlkem_ciphertext@)));
        zeroize_vec(&mut m);
        assert(x@.len() == 32);
        Ok(key)
    }
}

/// Run the responder side in one shot: a fresh X25519 key and DH against
/// the initiator's key, ML-KEM encapsulation to its encapsulation key, and
/// the combined session key. Fails when the encapsulation key has the wrong
/// length or does not validate.
pub fn respond(initiator: &HybridInitiatorMessage) -> (r: Result<(HybridResponderMessage, [u8; 32]), String>)
    ensures
        r is Ok <==> initiator.mlkem_encaps_key@.len() == MLKEM768_ENCAPS_KEY_LEN
            && mlkem768_ek_valid(initiator.mlkem_encaps_key@),
        r matches Err(e) ==> e@ == (if initiator.mlkem_encaps_key@.len() != MLKEM768_ENCAPS_KEY_LEN {
            length_error("ML-KEM-768 encapsulation key"@, initiator.mlkem_encaps_key@.len(), MLKEM768_ENCAPS_KEY_LEN as nat)
        } else {
            "ML-KEM-768 encapsulation key failed validation"@
        }),
        r matches Ok((m, k)) ==> m.mlkem_ciphertext@.len() == MLKEM768_CIPHERTEXT_LEN
            && exists|x: Seq<u8>, s: Seq<u8>| x.len() == SHARED_SECRET_LEN && s.len() == SHARED_SECRET_LEN
                && k@ == #[trigger] hybrid_key(x, s),
{
    let (our_secret, our_public) = x25519_keypair();
    let x = x25519_shared(our_secret, &initiator.x25519_public);
    let ek = &initiator.mlkem_encaps_key;
    if ek.len() != MLKEM768_ENCAPS_KEY_LEN {
        return Err(length_message("ML-KEM-768 encapsulation key", ek.len(), MLKEM768_ENCAPS_KEY_LEN));
    }
    if !mlkem768_check_ek(ek.as_slice()) {
        return Err("ML-KEM-768 encapsulation key failed validation".to_owned());
    }
    let (ct, mut s) = mlkem768_encapsulate(ek.as_slice());
    let key = combine_secrets(&x, s.as_slice());
    let ghost sv = s@;
    zeroize_vec(&mut s);
    assert(x@.len() == 32 && sv.len() == 32);
    Ok((HybridResponderMessage { x25519_public: our_public, mlkem_ciphertext: ct }, key))
}

/// The key-exchange suite of a handshake.
#[derive(Debug, Clone, Copy, PartialEq, Eq, Structural)]
pub enum KexSuite {
    /// X25519 only.
    Classical,
    /// X25519 and ML-KEM-768.
    Hybrid,
}

impl KexSuite {
    /// Hybrid exactly when both sides support it.
    pub fn negotiate(local_supports_hybrid: bool, peer_supports_hybrid: bool) -> (s: KexSuite)
        ensures
            s == (if local_supports_hybrid && peer_supports_hybrid { KexSuite::Hybrid } else { KexSuite::Classical }),
    {
        if local_supports_hybrid && peer_supports_hybrid {
            KexSuite::Hybrid
        } else {
            KexSuite::Classical
        }
    }

    /// Whether this is the hybrid suite.
    pub fn is_hybrid(self) -> (b: bool)
        ensures
            b == (self == KexSuite::Hybrid),
    {
        match self {
            KexSuite::Hybrid => true,
            KexSuite::Classical => false,
        }
    }
}

/// The classical fallback: an engine with a fresh X25519 key pair, ready
/// to complete a plain X25519 exchange with the peer's public key.
pub fn classical_key_exchange() -> (e: CryptoEngine)
    ensures
        e.has_secret(),
        e.public_key_spec() is Some,
        e.key_spec() is None,
{
    let mut e = CryptoEngine::new();
    let _ = e.generate_keypair();
    e
}

} // verus!
