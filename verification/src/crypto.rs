//! Audio encryption: an X25519 key exchange whose shared secret is hashed
//! into an AES-256-GCM key (`SHA-256("SassyTalk-v1-" || secret)`), or a
//! pre-shared 32-byte key; AES-256-GCM with a 96-bit nonce per packet and
//! the 128-bit tag carried separately. Also the legacy XOR obfuscation.
use vstd::prelude::*;
use aes_gcm::aead::{Aead, KeyInit};
use rand::RngCore;
use crate::primitives::{sha256, sha256_digest};

verus! {

/// Largest plaintext AES-GCM accepts (bytes).
pub const AES_GCM_P_MAX: u64 = 1u64 << 36;
/// AES-GCM tag length (bytes).
pub const TAG_LEN: usize = 16;
/// Seconds after which a key should be rotated.
pub const KEY_ROTATION_SECS: u64 = 60;

/// Errors of the crypto engine.
#[derive(Debug, Clone, Copy, PartialEq, Eq, Structural)]
pub enum CryptoError {
    EncryptionFailed,
    DecryptionFailed,
    KeyDerivationFailed,
    InvalidKeyLength,
}

#[verifier::external_type_specification]
#[verifier::external_body]
pub struct ExEphemeralSecret(x25519_dalek::EphemeralSecret);

/// AES-256-GCM encryption of `pt` under `key` and `nonce`, no associated
/// data: the ciphertext followed by the 16-byte tag.
pub uninterp spec fn aes256gcm_seal(key: Seq<u8>, nonce: Seq<u8>, pt: Seq<u8>) -> Seq<u8>;

/// Calls `aes_gcm::Aes256Gcm::encrypt` (trait `aead::Aead`). The contract
/// claims: the output is the named sealing of the plaintext, 16 bytes
/// longer; it fails exactly when the plaintext exceeds `P_MAX` (2^36 bytes),
/// the crate's only check.
#[verifier::external_body]
pub(crate) fn aes256gcm_encrypt(key: &[u8; 32], nonce: &[u8; 12], pt: &[u8]) -> (r: Option<Vec<u8>>)
    ensures
        match r {
            Some(c) => c@ == aes256gcm_seal(key@, nonce@, pt@) && c@.len() == pt@.len() + TAG_LEN,
            None => true,
        },
        r is Some <==> pt@.len() <= AES_GCM_P_MAX,
{
    let cipher = aes_gcm::Aes256Gcm::new(aes_gcm::Key::<aes_gcm::Aes256Gcm>::from_slice(key));
    cipher.encrypt(aes_gcm::Nonce::from_slice(nonce), pt).ok()
}

/// Calls `aes_gcm::Aes256Gcm::decrypt` (trait `aead::Aead`) on ciphertext
/// with the tag appended. The contract claims: what it returns seals back to
/// the input (the tag checked), and an input that is the sealing of some
/// admissible plaintext decrypts to exactly that plaintext.
#[verifier::external_body]
pub(crate) fn aes256gcm_decrypt(key: &[u8; 32], nonce: &[u8; 12], ct: &[u8]) -> (r: Option<Vec<u8>>)
    ensures
        r is Some ==> aes256gcm_seal(key@, nonce@, r->0@) == ct@,
        forall|p: Seq<u8>| #![trigger aes256gcm_seal(key@, nonce@, p)]
            p.len() <= AES_GCM_P_MAX && aes256gcm_seal(key@, nonce@, p) == ct@ ==> r is Some && r->0@ == p,
{
    let cipher = aes_gcm::Aes256Gcm::new(aes_gcm::Key::<aes_gcm::Aes256Gcm>::from_slice(key));
    cipher.decrypt(aes_gcm::Nonce::from_slice(nonce), ct).ok()
}

/// Calls `x25519_dalek::EphemeralSecret::random_from_rng` with the thread
/// RNG and derives its public key. Nothing is promised of the random values.
#[verifier::external_body]
pub(crate) fn x25519_keypair() -> (r: (x25519_dalek::EphemeralSecret, [u8; 32])) {
    let secret = x25519_dalek::EphemeralSecret::random_from_rng(rand::thread_rng());
    let public = x25519_dalek::PublicKey::from(&secret);
    (secret, *public.as_bytes())
}

/// Calls `x25519_dalek::EphemeralSecret::diffie_hellman` against the peer's
/// public key bytes: a 32-byte shared secret. The secret half is opaque
/// here, so nothing more is stated of the result.
#[verifier::external_body]
pub(crate) fn x25519_shared(secret: x25519_dalek::EphemeralSecret, peer: &[u8; 32]) -> (s: [u8; 32]) {
    let their = x25519_dalek::PublicKey::from(*peer);
    *secret.diffie_hellman(&their).as_bytes()
}

/// Calls `rand::RngCore::fill_bytes` on the thread RNG: 12 random bytes.
#[verifier::external_body]
fn random_nonce() -> (n: [u8; 12]) {
    let mut nonce = [0u8; 12];
    rand::thread_rng().fill_bytes(&mut nonce);
    nonce
}

/// The key-derivation prefix `SassyTalk-v1-`.
pub open spec fn kdf_prefix() -> Seq<u8> {
    seq![0x53u8, 0x61, 0x73, 0x73, 0x79, 0x54, 0x61, 0x6c, 0x6b, 0x2d, 0x76, 0x31, 0x2d]
}

/// The AES key derived from a shared secret.
pub open spec fn derive_key_spec(shared: Seq<u8>) -> Seq<u8> {
    sha256(kdf_prefix() + shared)
}

/// Whether a key created at `created` (ms) is due for rotation at `now`.
pub open spec fn rotation_due(created: Option<u64>, now: u64) -> bool {
    match created {
        Some(c) => (if now >= c { (now - c) as int } else { 0int }) / 1000 > KEY_ROTATION_SECS,
        None => true,
    }
}

/// Encrypts and decrypts audio for one peer.
pub struct CryptoEngine {
    secret_key: Option<x25519_dalek::EphemeralSecret>,
    public_key: Option<[u8; 32]>,
    symmetric_key: Option<[u8; 32]>,
    key_created_at: Option<u64>,
}

impl CryptoEngine {
    /// Whether an unused ephemeral secret is held.
    pub closed spec fn has_secret(&self) -> bool {
        self.secret_key is Some
    }

    /// Our public key, once generated.
    pub closed spec fn public_key_spec(&self) -> Option<Seq<u8>> {
        match self.public_key {
            Some(k) => Some(k@),
            None => None,
        }
    }

    /// The symmetric key in use.
    pub closed spec fn key_spec(&self) -> Option<Seq<u8>> {
        match self.symmetric_key {
            Some(k) => Some(k@),
            None => None,
        }
    }

    /// When the current key material was created (ms).
    pub closed spec fn created_spec(&self) -> Option<u64> {
        self.key_created_at
    }

    /// An engine without keys.
    pub fn new() -> (e: Self)
        ensures
            !e.has_secret(),
            e.public_key_spec() is None,
            e.key_spec() is None,
            e.created_spec() is None,
    {
        CryptoEngine { secret_key: None, public_key: None, symmetric_key: None, key_created_at: None }
    }

    /// Generate a fresh X25519 key pair at time `now_ms`; returns the public
    /// key to send to the peer.
    pub fn generate_keypair_at(&mut self, now_ms: u64) -> (public: [u8; 32])
        ensures
            final(self).has_secret(),
            final(self).public_key_spec() == Some(public@),
            final(self).key_spec() == old(self).key_spec(),
            final(self).created_spec() == Some(now_ms),
    {
        let (secret, public) = x25519_keypair();
        self.secret_key = Some(secret);
        self.public_key = Some(public);
        self.key_created_at = Some(now_ms);
        public
    }

    /// Generate a fresh X25519 key pair, reading the clock.
    pub fn generate_keypair(&mut self) -> (public: [u8; 32])
        ensures
            final(self).has_secret(),
            final(self).public_key_spec() == Some(public@),
            final(self).key_spec() == old(self).key_spec(),
            final(self).created_spec() is Some,
    {
        self.generate_keypair_at(crate::wire::now_ms())
    }

    /// Complete the key exchange with the peer's public key: the held secret
    /// is used up and the key becomes the hash of the shared secret. Fails
    /// with `KeyDerivationFailed` when no secret is held.
    pub fn key_exchange(&mut self, peer_public: &[u8; 32]) -> (r: Result<(), CryptoError>)
        ensures
            r is Err <==> !old(self).has_secret(),
            r is Err ==> r == Err::<(), CryptoError>(CryptoError::KeyDerivationFailed) && *final(self) == *old(self),
            r is Ok ==> !final(self).has_secret()
                && final(self).public_key_spec() == old(self).public_key_spec()
                && final(self).created_spec() == old(self).created_spec()
                && exists|s: Seq<u8>| s.len() == 32 && final(self).key_spec() == Some(#[trigger] derive_key_spec(s)),
    {
        let mut taken: Option<x25519_dalek::EphemeralSecret> = None;
        std::mem::swap(&mut taken, &mut self.secret_key);
        match taken {
            None => Err(CryptoError::KeyDerivationFailed),
            Some(secret) => {
                let shared = x25519_shared(secret, peer_public);
                let key = Self::derive_key(&shared);
                self.symmetric_key = Some(key);
                assert(shared@.len() == 32);
                Ok(())
            }
        }
    }

    /// Use a pre-shared key at time `now_ms`; it must be 32 bytes.
    pub fn set_key_at(&mut self, key: &[u8], now_ms: u64) -> (r: Result<(), CryptoError>)
        ensures
            r is Err <==> key@.len() != 32,
            r is Err ==> r == Err::<(), CryptoError>(CryptoError::InvalidKeyLength) && *final(self) == *old(self),
            r is Ok ==> final(self).key_spec() == Some(key@) && final(self).created_spec() == Some(now_ms)
                && final(self).has_secret() == old(self).has_secret()
                && final(self).public_key_spec() == old(self).public_key_spec(),
    {
        if key.len() != 32 {
            return Err(CryptoError::InvalidKeyLength);
        }
        let mut k = [0u8; 32];
        let mut i: usize = 0;
        while i < 32
            invariant
                i <= 32,
                key@.len() == 32,
                forall|j: int| 0 <= j < i ==> k@[j] == key@[j],
            decreases 32 - i,
        {
            k[i] = key[i];
            i = i + 1;
        }
        assert(k@ =~= key@);
        self.symmetric_key = Some(k);
        self.key_created_at = Some(now_ms);
        Ok(())
    }

    /// Use a pre-shared key, reading the clock.
    pub fn set_key(&mut self, key: &[u8]) -> (r: Result<(), CryptoError>)
        ensures
            r is Err <==> key@.len() != 32,
            r is Err ==> r == Err::<(), CryptoError>(CryptoError::InvalidKeyLength) && *final(self) == *old(self),
            r is Ok ==> final(self).key_spec() == Some(key@) && final(self).created_spec() is Some
                && final(self).has_secret() == old(self).has_secret()
                && final(self).public_key_spec() == old(self).public_key_spec(),
    {
        self.set_key_at(key, crate::wire::now_ms())
    }

    fn derive_key(shared: &[u8; 32]) -> (k: [u8; 32])
        ensures
            k@ == derive_key_spec(shared@),
    {
        let mut input: Vec<u8> = vec![0x53u8, 0x61, 0x73, 0x73, 0x79, 0x54, 0x61, 0x6c, 0x6b, 0x2d, 0x76, 0x31, 0x2d];
        assert(input@ =~= kdf_prefix());
        let mut i: usize = 0;
        while i < 32
            invariant
                i <= 32,
                shared@.len() == 32,
                input@ == kdf_prefix() + shared@.take(i as int),
            decreases 32 - i,
        {
            input.push(shared[i]);
            i = i + 1;
            assert(input@ =~= kdf_prefix() + shared@.take(i as int));
        }
        assert(shared@.take(32) =~= shared@);
        let d = sha256_digest(input.as_slice());
        let mut k = [0u8; 32];
        let mut j: usize = 0;
        while j < 32
            invariant
                j <= 32,
                d@.len() == 32,
                forall|t: int| 0 <= t < j ==> k@[t] == d@[t],
            decreases 32 - j,
        {
            k[j] = d[j];
            j = j + 1;
        }
        assert(k@ =~= d@);
        k
    }

    /// Encrypt with AES-256-GCM: the ciphertext and, separately, the tag.
    /// Fails with `EncryptionFailed` without a key or for a plaintext over
    /// the AES-GCM limit.
    pub fn encrypt(&self, plaintext: &[u8], nonce: &[u8; 12]) -> (r: Result<(Vec<u8>, [u8; 16]), CryptoError>)
        ensures
            r is Err <==> self.key_spec() is None || plaintext@.len() > AES_GCM_P_MAX,
            r is Err ==> r == Err::<(Vec<u8>, [u8; 16]), CryptoError>(CryptoError::EncryptionFailed),
            r matches Ok((c, t)) ==> (self.key_spec() matches Some(k)
                && c@ + t@ == aes256gcm_seal(k, nonce@, plaintext@) && c@.len() == plaintext@.len()),
    {
        match &self.symmetric_key {
            None => Err(CryptoError::EncryptionFailed),
            Some(key) => match aes256gcm_encrypt(key, nonce, plaintext) {
                None => Err(CryptoError::EncryptionFailed),
                Some(sealed) => {
                    let n = sealed.len();
                    let tag_start = n - 16;
                    let mut ct: Vec<u8> = Vec::new();
                    let mut i: usize = 0;
                    while i < tag_start
                        invariant
                            i <= tag_start,
                            tag_start + 16 == sealed@.len(),
                            ct@ == sealed@.take(i as int),
                        decreases tag_start - i,
                    {
                        ct.push(sealed[i]);
                        i = i + 1;
                        assert(ct@ =~= sealed@.take(i as int));
                    }
                    let mut tag = [0u8; 16];
                    let mut j: usize = 0;
                    while j < 16
                        invariant
                            j <= 16,
                            n == sealed@.len(),
                            tag_start + 16 == sealed@.len(),
                            forall|t: int| 0 <= t < j ==> tag@[t] == sealed@[tag_start + t],
                        decreases 16 - j,
                    {
                        tag[j] = sealed[tag_start + j];
                        j = j + 1;
                    }
                    assert(ct@ + tag@ =~= sealed@);
                    Ok((ct, tag))
                }
            },
        }
    }

    /// Decrypt ciphertext with its separate tag. Fails with
    /// `DecryptionFailed` without a key or when authentication fails.
    pub fn decrypt(&self, ciphertext: &[u8], nonce: &[u8; 12], auth_tag: &[u8; 16]) -> (r: Result<Vec<u8>, CryptoError>)
        ensures
            self.key_spec() is None ==> r == Err::<Vec<u8>, CryptoError>(CryptoError::DecryptionFailed),
            r is Err ==> r == Err::<Vec<u8>, CryptoError>(CryptoError::DecryptionFailed),
            r matches Ok(p) ==> (self.key_spec() matches Some(k) && aes256gcm_seal(k, nonce@, p@) == ciphertext@ + auth_tag@),
            forall|p: Seq<u8>| #![trigger aes256gcm_seal(self.key_spec()->0, nonce@, p)]
                self.key_spec() is Some && p.len() <= AES_GCM_P_MAX
                && aes256gcm_seal(self.key_spec()->0, nonce@, p) == ciphertext@ + auth_tag@ ==> (r matches Ok(q) && q@ == p),
    {
        match &self.symmetric_key {
            None => Err(CryptoError::DecryptionFailed),
            Some(key) => {
                let mut combined: Vec<u8> = Vec::new();
                crate::buf::append_bytes(&mut combined, ciphertext);
                let mut j: usize = 0;
                while j < 16
                    invariant
                        j <= 16,
                        combined@ == ciphertext@ + auth_tag@.take(j as int),
                    decreases 16 - j,
                {
                    combined.push(auth_tag[j]);
                    j = j + 1;
                    assert(combined@ =~= ciphertext@ + auth_tag@.take(j as int));
                }
                assert(auth_tag@.take(16) =~= auth_tag@);
                match aes256gcm_decrypt(key, nonce, combined.as_slice()) {
                    Some(p) => Ok(p),
                    None => Err(CryptoError::DecryptionFailed),
                }
            }
        }
    }

    /// A random 96-bit nonce.
    pub fn generate_nonce() -> (n: [u8; 12]) {
        random_nonce()
    }

    /// Whether the key is due for rotation at `now_ms`: no key material yet,
    /// or created more than 60 whole seconds before.
    pub fn needs_key_rotation_at(&self, now_ms: u64) -> (b: bool)
        ensures
            b == rotation_due(self.created_spec(), now_ms),
    {
        match self.key_created_at {
            Some(created) => {
                let age: u64 = if now_ms >= created { now_ms - created } else { 0 };
                age / 1000 > KEY_ROTATION_SECS
            }
            None => true,
        }
    }

    /// Whether the key is due for rotation, reading the clock: the answer
    /// of `needs_key_rotation_at` for the time the clock gave.
    pub fn needs_key_rotation(&self) -> (b: bool)
        ensures
            exists|now: u64| b == #[trigger] rotation_due(self.created_spec(), now),
    {
        let now = crate::wire::now_ms();
        let b = self.needs_key_rotation_at(now);
        assert(b == rotation_due(self.created_spec(), now));
        b
    }

    /// Whether a key is installed.
    pub fn is_ready(&self) -> (b: bool)
        ensures
            b == (self.key_spec() is Some),
    {
        self.symmetric_key.is_some()
    }

    /// Our public key, once generated.
    pub fn get_public_key(&self) -> (k: Option<[u8; 32]>)
        ensures
            match k {
                Some(b) => self.public_key_spec() == Some(b@),
                None => self.public_key_spec() is None,
            },
    {
        self.public_key
    }
}

/// The legacy XOR obfuscation: byte `i` of the data XOR byte `i mod n` of
/// the key; an empty key gives empty output.
pub open spec fn xor_spec(data: Seq<u8>, key: Seq<u8>) -> Seq<u8> {
    if key.len() == 0 {
        Seq::empty()
    } else {
        Seq::new(data.len(), |i: int| data[i] ^ key[i % (key.len() as int)])
    }
}

proof fn lemma_mod_step(i: int, n: int, k: int)
    requires
        n > 0,
        i >= 0,
        k == i % n,
    ensures
        (i + 1) % n == (if k + 1 == n { 0 } else { k + 1 }),
{
    vstd::arithmetic::div_mod::lemma_fundamental_div_mod(i, n);
    let q = i / n;
    assert(0 <= k < n) by {
        vstd::arithmetic::div_mod::lemma_mod_bound(i, n);
    }
    if k + 1 == n {
        assert(i + 1 == (q + 1) * n) by (nonlinear_arith)
            requires i == n * q + k, k + 1 == n;
        vstd::arithmetic::div_mod::lemma_mod_multiples_basic(q + 1, n);
    } else {
        assert(i + 1 == q * n + (k + 1)) by (nonlinear_arith)
            requires i == n * q + k;
        vstd::arithmetic::div_mod::lemma_fundamental_div_mod_converse(i + 1, n, q, k + 1);
    }
}

/// XOR `data` with the key repeated (not cryptographically secure).
pub fn xor_cipher(data: &[u8], key: &[u8]) -> (out: Vec<u8>)
    ensures
        out@ == xor_spec(data@, key@),
{
    let mut out: Vec<u8> = Vec::new();
    if key.len() == 0 {
        assert(out@ =~= xor_spec(data@, key@));
        return out;
    }
    let mut i: usize = 0;
    let mut k: usize = 0;
    while i < data.len()
        invariant
            key@.len() > 0,
            i <= data@.len(),
            k < key@.len(),
            k == (i as int) % (key@.len() as int),
            out@ == xor_spec(data@, key@).take(i as int),
        decreases data.len() - i,
    {
        out.push(data[i] ^ key[k]);
        proof {
            assert(out@ =~= xor_spec(data@, key@).take(i + 1));
        }
        proof {
            lemma_mod_step(i as int, key@.len() as int, k as int);
        }
        k = if k + 1 == key.len() { 0 } else { k + 1 };
        i = i + 1;
    }
    assert(out@ =~= xor_spec(data@, key@));
    out
}

/// XOR with a non-empty key undoes itself.
pub proof fn lemma_xor_involution(data: Seq<u8>, key: Seq<u8>)
    requires
        key.len() > 0,
    ensures
        xor_spec(xor_spec(data, key), key) == data,
{
    let once = xor_spec(data, key);
    let twice = xor_spec(once, key);
    assert forall|i: int| 0 <= i < data.len() implies twice[i] == data[i] by {
        let b = key[i % (key.len() as int)];
        let d = data[i];
        assert((d ^ b) ^ b == d) by (bit_vector);
    }
    assert(twice =~= data);
}

} // verus!
