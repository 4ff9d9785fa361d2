use sassytalkie::crypto::{xor_cipher, CryptoEngine, CryptoError};

#[test]
fn test_xor_cipher() {
    let data = b"Test data";
    let key = b"secret";
    let encrypted = xor_cipher(data, key);
    let decrypted = xor_cipher(&encrypted, key);
    assert_eq!(decrypted, data);
}

#[test]
fn xor_cipher_values_and_empty_key() {
    assert_eq!(xor_cipher(&[1, 2, 3], &[1]), vec![0, 3, 2]);
    assert_eq!(xor_cipher(&[0xff, 0x0f, 0xf0], &[0x0f, 0xff]), vec![0xf0, 0xf0, 0xff]);
    assert_eq!(xor_cipher(&[1, 2, 3], &[]), Vec::<u8>::new());
}

#[test]
fn aes_gcm_round_trip_with_preshared_key() {
    let mut engine = CryptoEngine::new();
    assert!(!engine.is_ready());
    assert_eq!(engine.encrypt(b"x", &[0; 12]).unwrap_err(), CryptoError::EncryptionFailed);
    engine.set_key(&[0x42u8; 32]).unwrap();
    assert!(engine.is_ready());
    let nonce = CryptoEngine::generate_nonce();
    let (ct, tag) = engine.encrypt(b"Hello, Walkie-Talkie!", &nonce).unwrap();
    assert_ne!(ct, b"Hello, Walkie-Talkie!".to_vec());
    assert_eq!(engine.decrypt(&ct, &nonce, &tag).unwrap(), b"Hello, Walkie-Talkie!".to_vec());
    let mut bad_tag = tag;
    bad_tag[0] ^= 1;
    assert_eq!(engine.decrypt(&ct, &nonce, &bad_tag).unwrap_err(), CryptoError::DecryptionFailed);
}

#[test]
fn key_exchange_agrees() {
    let mut alice = CryptoEngine::new();
    let mut bob = CryptoEngine::new();
    assert_eq!(alice.key_exchange(&[1; 32]).unwrap_err(), CryptoError::KeyDerivationFailed);
    let a = alice.generate_keypair();
    let b = bob.generate_keypair();
    assert_eq!(alice.get_public_key(), Some(a));
    alice.key_exchange(&b).unwrap();
    bob.key_exchange(&a).unwrap();
    let nonce = CryptoEngine::generate_nonce();
    let (ct, tag) = alice.encrypt(b"Secret message", &nonce).unwrap();
    assert_eq!(bob.decrypt(&ct, &nonce, &tag).unwrap(), b"Secret message".to_vec());
}

#[test]
fn invalid_key_length_and_rotation() {
    let mut e = CryptoEngine::new();
    assert_eq!(e.set_key(&[0; 31]).unwrap_err(), CryptoError::InvalidKeyLength);
    assert!(e.needs_key_rotation_at(0));
    e.set_key_at(&[1; 32], 1_000).unwrap();
    assert!(!e.needs_key_rotation_at(61_999));
    assert!(e.needs_key_rotation_at(62_000));
    assert!(!e.needs_key_rotation_at(500));
}

#[test]
fn test_aes_gcm_roundtrip() {
    let mut engine = CryptoEngine::new();
    let key = [0x42u8; 32];
    engine.set_key(&key).unwrap();
    let plaintext = b"Hello, Walkie-Talkie!";
    let nonce = CryptoEngine::generate_nonce();
    let (ciphertext, tag) = engine.encrypt(plaintext, &nonce).unwrap();
    assert_ne!(ciphertext, plaintext);
    let decrypted = engine.decrypt(&ciphertext, &nonce, &tag).unwrap();
    assert_eq!(decrypted, plaintext);
}

#[test]
fn test_key_exchange() {
    let mut alice = CryptoEngine::new();
    let mut bob = CryptoEngine::new();
    let alice_public = alice.generate_keypair();
    let bob_public = bob.generate_keypair();
    alice.key_exchange(&bob_public).unwrap();
    bob.key_exchange(&alice_public).unwrap();
    // Both derived the same key: the same input seals to the same bytes.
    let probe_nonce = [7u8; 12];
    assert_eq!(alice.encrypt(b"probe", &probe_nonce).unwrap(), bob.encrypt(b"probe", &probe_nonce).unwrap());
    let plaintext = b"Secret message";
    let nonce = CryptoEngine::generate_nonce();
    let (ciphertext, tag) = alice.encrypt(plaintext, &nonce).unwrap();
    let decrypted = bob.decrypt(&ciphertext, &nonce, &tag).unwrap();
    assert_eq!(decrypted, plaintext);
}
