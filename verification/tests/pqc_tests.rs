use ml_kem::array::typenum::Unsigned;
use ml_kem::{Kem, KeySizeUser};
use sassytalkie::pqc::{
    classical_key_exchange, respond, HybridInitiatorMessage, HybridKeyExchange, HybridResponderMessage, KexSuite,
    HYBRID_INIT_MSG_LEN, HYBRID_RESP_MSG_LEN, MLKEM768_CIPHERTEXT_LEN, MLKEM768_ENCAPS_KEY_LEN,
};

#[test]
fn test_size_constants_match_mlkem768() {
    assert_eq!(MLKEM768_ENCAPS_KEY_LEN, 1184, "ML-KEM-768 encaps key is 1184 B");
    assert_eq!(MLKEM768_CIPHERTEXT_LEN, 1088, "ML-KEM-768 ciphertext is 1088 B");
    assert_eq!(HYBRID_INIT_MSG_LEN, 32 + 1184);
    assert_eq!(HYBRID_RESP_MSG_LEN, 32 + 1088);
    // The constants agree with the sizes the ml-kem crate derives.
    assert_eq!(
        MLKEM768_ENCAPS_KEY_LEN,
        <<ml_kem::EncapsulationKey<ml_kem::MlKem768> as KeySizeUser>::KeySize as Unsigned>::USIZE
    );
    assert_eq!(MLKEM768_CIPHERTEXT_LEN, <<ml_kem::MlKem768 as Kem>::CiphertextSize as Unsigned>::USIZE);
}

#[test]
fn test_hybrid_round_trip() {
    let initiator = HybridKeyExchange::new();
    let init_msg = initiator.initiator_message();
    let (resp_msg, resp_key) = respond(&init_msg).unwrap();
    let init_key = initiator.complete(&resp_msg).unwrap();
    assert_eq!(init_key, resp_key);
}

#[test]
fn test_tampered_mlkem_ciphertext_diverges() {
    let initiator = HybridKeyExchange::new();
    let init_msg = initiator.initiator_message();
    let (mut resp_msg, resp_key) = respond(&init_msg).unwrap();
    resp_msg.mlkem_ciphertext[0] ^= 0x01;
    let init_key = initiator.complete(&resp_msg).unwrap();
    assert_ne!(init_key, resp_key, "tampered ML-KEM CT must break the key");
}

#[test]
fn test_tampered_x25519_key_diverges() {
    let initiator = HybridKeyExchange::new();
    let init_msg = initiator.initiator_message();
    let (mut resp_msg, resp_key) = respond(&init_msg).unwrap();
    resp_msg.x25519_public[0] ^= 0x01;
    let init_key = initiator.complete(&resp_msg).unwrap();
    assert_ne!(init_key, resp_key, "tampered X25519 key must break the key");
}

#[test]
fn test_classical_fallback_path() {
    assert_eq!(KexSuite::negotiate(true, false), KexSuite::Classical);
    assert_eq!(KexSuite::negotiate(false, true), KexSuite::Classical);
    assert_eq!(KexSuite::negotiate(false, false), KexSuite::Classical);
    assert_eq!(KexSuite::negotiate(true, true), KexSuite::Hybrid);
    assert!(KexSuite::Hybrid.is_hybrid());
    assert!(!KexSuite::Classical.is_hybrid());
    let mut kx_a = classical_key_exchange();
    let mut kx_b = classical_key_exchange();
    let pub_a = kx_a.get_public_key().unwrap();
    let pub_b = kx_b.get_public_key().unwrap();
    kx_b.key_exchange(&pub_a).unwrap();
    kx_a.key_exchange(&pub_b).unwrap();
    let nonce = [7u8; 12];
    let (ct, tag) = kx_a.encrypt(b"classical fallback frame", &nonce).unwrap();
    assert_eq!(kx_b.decrypt(&ct, &nonce, &tag).unwrap(), b"classical fallback frame".to_vec());
}

#[test]
fn test_serialization_round_trips_with_lengths() {
    let initiator = HybridKeyExchange::new();
    let init_msg = initiator.initiator_message();
    let (resp_msg, _key) = respond(&init_msg).unwrap();
    let init_bytes = init_msg.to_bytes();
    assert_eq!(init_bytes.len(), HYBRID_INIT_MSG_LEN);
    let init_parsed = HybridInitiatorMessage::from_bytes(&init_bytes).unwrap();
    assert_eq!(init_parsed.x25519_public, init_msg.x25519_public);
    assert_eq!(init_parsed.mlkem_encaps_key, init_msg.mlkem_encaps_key);
    let resp_bytes = resp_msg.to_bytes();
    assert_eq!(resp_bytes.len(), HYBRID_RESP_MSG_LEN);
    let resp_parsed = HybridResponderMessage::from_bytes(&resp_bytes).unwrap();
    assert_eq!(resp_parsed.x25519_public, resp_msg.x25519_public);
    assert_eq!(resp_parsed.mlkem_ciphertext, resp_msg.mlkem_ciphertext);
}

#[test]
fn test_deserialization_rejects_wrong_lengths() {
    assert!(HybridInitiatorMessage::from_bytes(&[0u8; 10]).is_err());
    assert!(HybridInitiatorMessage::from_bytes(&vec![0u8; HYBRID_INIT_MSG_LEN + 1]).is_err());
    assert!(HybridResponderMessage::from_bytes(&[0u8; 10]).is_err());
    assert!(HybridResponderMessage::from_bytes(&vec![0u8; HYBRID_RESP_MSG_LEN - 1]).is_err());
    assert_eq!(
        HybridInitiatorMessage::from_bytes(&[0u8; 10]).err().unwrap(),
        "Hybrid initiator message wrong length: 10 (expected 1216)"
    );
    let short = HybridInitiatorMessage { x25519_public: [0u8; 32], mlkem_encaps_key: vec![0u8; 10] };
    assert!(respond(&short).is_err());
    let initiator = HybridKeyExchange::new();
    let bad = HybridResponderMessage { x25519_public: [1u8; 32], mlkem_ciphertext: vec![0u8; 5] };
    assert!(initiator.complete(&bad).is_err());
}
