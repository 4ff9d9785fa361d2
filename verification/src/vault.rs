//! Secret storage: the vault interface (with an in-memory vault), the
//! wrapping-key helpers, and the encrypted blob layout of the file store:
//!
//! ```text
//! ["STSS"][version:u8 = 1][nonce:12][AES-256-GCM ciphertext with tag]
//! ```
use vstd::prelude::*;
use crate::strmap::StrMap;
use crate::crypto::{aes256gcm_seal, aes256gcm_encrypt, aes256gcm_decrypt, AES_GCM_P_MAX};
use crate::primitives::{sha256, sha256_digest, zeroize_array32};

verus! {

/// Blob format version.
pub const BLOB_VERSION: u8 = 1;
/// Nonce length of the blob.
pub const BLOB_NONCE_LEN: usize = 12;
/// Shortest well-formed blob: magic, version, nonce and a tag.
pub const MIN_BLOB_LEN: usize = 4 + 1 + 12 + 16;

/// A store of named secrets.
pub trait SecretVault {
    /// The secrets held, by name.
    spec fn contents(&self) -> Map<Seq<char>, Seq<u8>>;

    /// Store `blob` under `target`.
    fn put(&mut self, target: &str, blob: &[u8]) -> (r: Result<(), String>)
        ensures
            r is Ok ==> final(self).contents() == old(self).contents().insert(target@, blob@);

    /// The secret stored under `target`, if any.
    fn get(&self, target: &str) -> (r: Result<Option<Vec<u8>>, String>)
        ensures
            r matches Ok(o) ==> (match o {
                Some(b) => self.contents().contains_key(target@) && b@ == self.contents()[target@],
                None => !self.contents().contains_key(target@),
            });

    /// Forget the secret stored under `target`.
    fn delete(&mut self, target: &str) -> (r: Result<(), String>)
        ensures
            r is Ok ==> final(self).contents() == old(self).contents().remove(target@);
}

/// A vault held in memory.
pub struct MemoryVault {
    inner: StrMap<Vec<u8>>,
}

impl MemoryVault {
    /// Internal consistency.
    #[verifier::type_invariant]
    spec fn inv(self) -> bool {
        self.inner.wf()
    }

    /// An empty vault.
    pub fn new() -> (v: Self)
        ensures
            v.contents() == Map::<Seq<char>, Seq<u8>>::empty(),
    {
        let v = MemoryVault { inner: StrMap::new() };
        assert(v.contents() =~= Map::<Seq<char>, Seq<u8>>::empty());
        v
    }
}

impl Default for MemoryVault {
    fn default() -> (v: Self)
        ensures
            v.contents() == Map::<Seq<char>, Seq<u8>>::empty(),
    {
        MemoryVault::new()
    }
}

impl SecretVault for MemoryVault {
    closed spec fn contents(&self) -> Map<Seq<char>, Seq<u8>> {
        self.inner.view().map_values(|b: Vec<u8>| b@)
    }

    fn put(&mut self, target: &str, blob: &[u8]) -> (r: Result<(), String>)
        ensures
            r is Ok,
    {
        proof { use_type_invariant(&*self); }
        let ghost c0 = self.contents();
        let mut m: StrMap<Vec<u8>> = StrMap::new();
        std::mem::swap(&mut m, &mut self.inner);
        m.insert(target.to_owned(), crate::buf::copy_bytes(blob));
        self.inner = m;
        assert(self.contents() =~= c0.insert(target@, blob@));
        Ok(())
    }

    fn get(&self, target: &str) -> (r: Result<Option<Vec<u8>>, String>)
        ensures
            r is Ok,
    {
        proof { use_type_invariant(self); }
        match self.inner.get(target) {
            Some(b) => Ok(Some(crate::buf::copy_bytes(b.as_slice()))),
            None => Ok(None),
        }
    }

    fn delete(&mut self, target: &str) -> (r: Result<(), String>)
        ensures
            r is Ok,
    {
        proof { use_type_invariant(&*self); }
        let ghost c0 = self.contents();
        let mut m: StrMap<Vec<u8>> = StrMap::new();
        std::mem::swap(&mut m, &mut self.inner);
        let _ = m.remove(target);
        self.inner = m;
        assert(self.contents() =~= c0.remove(target@));
        Ok(())
    }
}

/// A vault gives back for a name what was last stored under it, nothing
/// once the name is deleted, and leaves every other name as it was: the
/// contents after `put` and `delete`, as their contracts give them.
pub proof fn lemma_put_get_delete(c: Map<Seq<char>, Seq<u8>>, target: Seq<char>, other: Seq<char>, blob: Seq<u8>)
    requires
        other != target,
    ensures
        c.insert(target, blob).contains_key(target),
        c.insert(target, blob)[target] == blob,
        !c.remove(target).contains_key(target),
        c.insert(target, blob).contains_key(other) == c.contains_key(other),
        c.remove(target).contains_key(other) == c.contains_key(other),
        c.contains_key(other) ==> c.insert(target, blob)[other] == c[other] && c.remove(target)[other] == c[other],
{
}

/// What a stored wrapping key holds: the key itself.
pub open spec fn protected(plain: Seq<u8>) -> Seq<u8> {
    plain
}

/// The key recovered from stored bytes: only 32 bytes are a key.
pub open spec fn unprotected(blob: Seq<u8>) -> Option<Seq<u8>> {
    if blob.len() == 32 { Some(blob) } else { None }
}

/// Protect a wrapping key for storage; without an OS protection service the
/// key is stored as is.
pub fn protect_wrapping_key(plain: &[u8; 32]) -> (r: Result<Vec<u8>, String>)
    ensures
        r matches Ok(b) && b@ == protected(plain@),
{
    let mut out: Vec<u8> = Vec::new();
    let mut i: usize = 0;
    while i < 32
        invariant
            i <= 32,
            out@ == plain@.take(i as int),
        decreases 32 - i,
    {
        out.push(plain[i]);
        i = i + 1;
        assert(out@ =~= plain@.take(i as int));
    }
    assert(plain@.take(32) =~= plain@);
    Ok(out)
}

/// Recover a stored wrapping key; it must be 32 bytes.
pub fn unprotect_wrapping_key(blob: &[u8]) -> (r: Result<[u8; 32], String>)
    ensures
        match unprotected(blob@) {
            Some(k) => r matches Ok(b) && b@ == k,
            None => r matches Err(e) && e@ == "wrap key wrong length"@,
        },
{
    if blob.len() != 32 {
        return Err("wrap key wrong length".to_owned());
    }
    let mut out = [0u8; 32];
    let mut i: usize = 0;
    while i < 32
        invariant
            i <= 32,
            blob@.len() == 32,
            forall|j: int| 0 <= j < i ==> out@[j] == blob@[j],
        decreases 32 - i,
    {
        out[i] = blob[i];
        i = i + 1;
    }
    assert(out@ =~= blob@);
    Ok(out)
}

/// A protected wrapping key is recovered unchanged.
pub proof fn lemma_wrapping_key_round_trip(key: Seq<u8>)
    requires
        key.len() == 32,
    ensures
        unprotected(protected(key)) == Some(key),
{
}

/// The prefix `sassytalkie-desktop-wrap-v1`.
pub open spec fn wrap_prefix() -> Seq<u8> {
    seq![0x73u8, 0x61, 0x73, 0x73, 0x79, 0x74, 0x61, 0x6c, 0x6b, 0x69, 0x65, 0x2d, 0x64, 0x65, 0x73, 0x6b,
        0x74, 0x6f, 0x70, 0x2d, 0x77, 0x72, 0x61, 0x70, 0x2d, 0x76, 0x31]
}

/// A process wrapping key derived from a machine secret:
/// `SHA-256("sassytalkie-desktop-wrap-v1" || secret)`.
pub fn wrapping_key_from_secret(secret: &[u8]) -> (k: [u8; 32])
    ensures
        k@ == sha256(wrap_prefix() + secret@),
{
    let mut input: Vec<u8> = vec![0x73u8, 0x61, 0x73, 0x73, 0x79, 0x74, 0x61, 0x6c, 0x6b, 0x69, 0x65, 0x2d, 0x64,
        0x65, 0x73, 0x6b, 0x74, 0x6f, 0x70, 0x2d, 0x77, 0x72, 0x61, 0x70, 0x2d, 0x76, 0x31];
    assert(input@ =~= wrap_prefix());
    crate::buf::append_bytes(&mut input, secret);
    let d = sha256_digest(input.as_slice());
    let mut k = [0u8; 32];
    let mut i: usize = 0;
    while i < 32
        invariant
            i <= 32,
            d@.len() == 32,
            forall|j: int| 0 <= j < i ==> k@[j] == d@[j],
        decreases 32 - i,
    {
        k[i] = d[i];
        i = i + 1;
    }
    assert(k@ =~= d@);
    k
}

/// Wipe a key in place.
pub fn zeroize_key(key: &mut [u8; 32])
    ensures
        final(key)@ == Seq::new(32, |i: int| 0u8),
{
    zeroize_array32(key);
}

/// The magic `STSS`.
pub open spec fn blob_magic() -> Seq<u8> {
    seq![0x53u8, 0x54, 0x53, 0x53]
}

/// The stored blob for `plaintext` sealed under `key` with `nonce`.
pub open spec fn blob_spec(key: Seq<u8>, nonce: Seq<u8>, plaintext: Seq<u8>) -> Seq<u8> {
    blob_magic() + seq![BLOB_VERSION] + nonce + aes256gcm_seal(key, nonce, plaintext)
}

/// Seal a secret into the blob layout; `None` only for a plaintext beyond
/// the AES-GCM limit.
pub fn seal_blob(key: &[u8; 32], nonce: &[u8; 12], plaintext: &[u8]) -> (r: Option<Vec<u8>>)
    ensures
        r is Some <==> plaintext@.len() <= AES_GCM_P_MAX,
        r matches Some(b) ==> b@ == blob_spec(key@, nonce@, plaintext@) && b@.len() == MIN_BLOB_LEN + plaintext@.len(),
{
    match aes256gcm_encrypt(key, nonce, plaintext) {
        None => None,
        Some(ct) => {
            let mut out: Vec<u8> = vec![0x53u8, 0x54, 0x53, 0x53, BLOB_VERSION];
            let mut i: usize = 0;
            while i < 12
                invariant
                    i <= 12,
                    out@ == blob_magic() + seq![BLOB_VERSION] + nonce@.take(i as int),
                decreases 12 - i,
            {
                out.push(nonce[i]);
                i = i + 1;
                assert(out@ =~= blob_magic() + seq![BLOB_VERSION] + nonce@.take(i as int));
            }
            assert(nonce@.take(12) =~= nonce@);
            crate::buf::append_bytes(&mut out, ct.as_slice());
            assert(out@ =~= blob_spec(key@, nonce@, plaintext@));
            Some(out)
        }
    }
}

/// Open a stored blob: it must be long enough, carry the magic and the
/// version, and authenticate under `key`.
pub fn open_blob(key: &[u8; 32], bytes: &[u8]) -> (r: Result<Vec<u8>, String>)
    ensures
        (bytes@.len() < MIN_BLOB_LEN || bytes@.take(4) != blob_magic() || bytes@[4] != BLOB_VERSION) ==> r is Err,
        r matches Ok(p) ==> bytes@.len() >= MIN_BLOB_LEN
            && aes256gcm_seal(key@, bytes@.subrange(5, 17), p@) == bytes@.skip(17),
        forall|p: Seq<u8>| #![trigger blob_spec(key@, bytes@.subrange(5, 17), p)]
            p.len() <= AES_GCM_P_MAX && bytes@ == blob_spec(key@, bytes@.subrange(5, 17), p)
            && bytes@.len() >= MIN_BLOB_LEN ==> (r matches Ok(q) && q@ == p),
{
    if bytes.len() < MIN_BLOB_LEN || bytes[0] != 0x53 || bytes[1] != 0x54 || bytes[2] != 0x53 || bytes[3] != 0x53
        || bytes[4] != BLOB_VERSION {
        proof {
            if bytes@.len() >= MIN_BLOB_LEN && bytes@.take(4) == blob_magic() {
                assert(bytes@.take(4)[0] == bytes@[0]);
                assert(bytes@.take(4)[1] == bytes@[1]);
                assert(bytes@.take(4)[2] == bytes@[2]);
                assert(bytes@.take(4)[3] == bytes@[3]);
            }
        }
        return Err("secret store corrupted".to_owned());
    }
    assert(bytes@.take(4) =~= blob_magic());
    let mut nonce = [0u8; 12];
    let mut i: usize = 0;
    while i < 12
        invariant
            i <= 12,
            bytes@.len() >= MIN_BLOB_LEN,
            forall|j: int| 0 <= j < i ==> nonce@[j] == bytes@[5 + j],
        decreases 12 - i,
    {
        nonce[i] = bytes[5 + i];
        i = i + 1;
    }
    assert(nonce@ =~= bytes@.subrange(5, 17));
    let mut ct: Vec<u8> = Vec::new();
    let mut k: usize = 17;
    while k < bytes.len()
        invariant
            17 <= k <= bytes@.len(),
            ct@ == bytes@.subrange(17, k as int),
        decreases bytes.len() - k,
    {
        ct.push(bytes[k]);
        k = k + 1;
        assert(ct@ =~= bytes@.subrange(17, k as int));
    }
    assert(ct@ =~= bytes@.skip(17));
    proof {
        assert forall|p: Seq<u8>| #![trigger blob_spec(key@, bytes@.subrange(5, 17), p)]
            p.len() <= AES_GCM_P_MAX && bytes@ == blob_spec(key@, bytes@.subrange(5, 17), p)
            implies aes256gcm_seal(key@, nonce@, p) == ct@ by {
            let b = blob_spec(key@, bytes@.subrange(5, 17), p);
            assert(b.skip(17) =~= aes256gcm_seal(key@, nonce@, p));
        }
    }
    match aes256gcm_decrypt(key, &nonce, ct.as_slice()) {
        Some(p) => Ok(p),
        None => Err("secret store decrypt failed".to_owned()),
    }
}

/// A sealed blob has the layout that opening checks: long enough, the
/// magic, the version, and the sealing nonce in its place; so opening it
/// with the same key gives back the secret.
pub proof fn lemma_blob_layout(key: Seq<u8>, nonce: Seq<u8>, plaintext: Seq<u8>, b: Seq<u8>)
    requires
        nonce.len() == BLOB_NONCE_LEN,
        b == blob_spec(key, nonce, plaintext),
        b.len() == MIN_BLOB_LEN + plaintext.len(),
    ensures
        b.len() >= MIN_BLOB_LEN,
        b.take(4) == blob_magic(),
        b[4] == BLOB_VERSION,
        b.subrange(5, 17) == nonce,
        b == blob_spec(key, b.subrange(5, 17), plaintext),
{
    assert(b.take(4) =~= blob_magic());
    assert(b.subrange(5, 17) =~= nonce);
}

} // verus!
