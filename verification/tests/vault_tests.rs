use sha2::{Digest, Sha256};
use sassytalkie::vault::{
    open_blob, protect_wrapping_key, seal_blob, unprotect_wrapping_key, wrapping_key_from_secret, zeroize_key,
    MemoryVault, SecretVault,
};

#[test]
fn wrapping_key_protect_round_trip() {
    let key = [3u8; 32];
    let blob = protect_wrapping_key(&key).unwrap();
    let back = unprotect_wrapping_key(&blob).unwrap();
    assert_eq!(back, key);
}

#[test]
fn memory_vault_trait_round_trip() {
    let mut v = MemoryVault::default();
    v.put("t", &[1, 2, 3]).unwrap();
    assert_eq!(v.get("t").unwrap().as_deref(), Some(&[1, 2, 3][..]));
    v.delete("t").unwrap();
    assert!(v.get("t").unwrap().is_none());
}

#[test]
fn unprotect_rejects_wrong_length() {
    assert_eq!(unprotect_wrapping_key(&[0u8; 31]).unwrap_err(), "wrap key wrong length");
}

#[test]
fn blob_round_trip_and_wrong_key_fails_closed() {
    let key = [9u8; 32];
    let nonce = [4u8; 12];
    let blob = seal_blob(&key, &nonce, b"hello-psk-32-bytes-placeholder!!").unwrap();
    assert_eq!(&blob[..5], b"STSS\x01");
    assert_eq!(&blob[5..17], &nonce);
    assert_eq!(blob.len(), 33 + 32);
    assert_eq!(open_blob(&key, &blob).unwrap(), b"hello-psk-32-bytes-placeholder!!".to_vec());
    assert_eq!(open_blob(&[2u8; 32], &blob).unwrap_err(), "secret store decrypt failed");
    assert_eq!(open_blob(&key, &blob[..20]).unwrap_err(), "secret store corrupted");
    let mut bad = blob.clone();
    bad[4] = 2;
    assert_eq!(open_blob(&key, &bad).unwrap_err(), "secret store corrupted");
}

#[test]
fn wrapping_key_derivation_and_zeroize() {
    let mut h = Sha256::new();
    h.update(b"sassytalkie-desktop-wrap-v1");
    h.update(b"machine");
    let expected: [u8; 32] = h.finalize().into();
    let mut k = wrapping_key_from_secret(b"machine");
    assert_eq!(k, expected);
    zeroize_key(&mut k);
    assert_eq!(k, [0u8; 32]);
}
