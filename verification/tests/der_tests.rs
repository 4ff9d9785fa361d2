use base64::Engine;
use sassytalkie::der::{spki_der_from_cert, spki_sha256_b64};
use sha2::{Digest, Sha256};

fn tlv(tag: u8, body: &[u8]) -> Vec<u8> {
    let mut v = vec![tag];
    if body.len() < 0x80 {
        v.push(body.len() as u8);
    } else if body.len() < 0x100 {
        v.push(0x81);
        v.push(body.len() as u8);
    } else {
        v.push(0x82);
        v.push((body.len() >> 8) as u8);
        v.push(body.len() as u8);
    }
    v.extend_from_slice(body);
    v
}

fn cert(with_version: bool, spki: &[u8]) -> Vec<u8> {
    let mut tbs = Vec::new();
    if with_version {
        tbs.extend(tlv(0xa0, &tlv(0x02, &[2])));
    }
    tbs.extend(tlv(0x02, &[0x01, 0x23]));
    tbs.extend(tlv(0x30, &tlv(0x06, &[0x2a, 0x86, 0x48])));
    tbs.extend(tlv(0x30, b"issuer"));
    tbs.extend(tlv(0x30, &[0x17; 30]));
    tbs.extend(tlv(0x30, b"subject"));
    tbs.extend_from_slice(spki);
    let mut body = tlv(0x30, &tbs);
    body.extend(tlv(0x30, &tlv(0x06, &[1])));
    body.extend(tlv(0x03, &[0, 9, 9]));
    tlv(0x30, &body)
}

#[test]
fn mismatch_fails_closed() {
    assert!(spki_der_from_cert(&[0x30, 0x00]).is_none());
    assert!(spki_sha256_b64(&[0x30, 0x00]).is_none());
}

#[test]
fn spki_is_found_with_and_without_version() {
    let spki = tlv(0x30, &[0x55; 200]);
    for with_version in [true, false] {
        let der = cert(with_version, &spki);
        assert_eq!(spki_der_from_cert(&der), Some(&spki[..]));
    }
}

#[test]
fn pin_is_base64_of_spki_hash() {
    let spki = tlv(0x30, &[1, 2, 3, 4]);
    let der = cert(true, &spki);
    let expected = base64::engine::general_purpose::STANDARD.encode(Sha256::digest(&spki));
    assert_eq!(spki_sha256_b64(&der), Some(expected));
}

#[test]
fn malformed_lengths_are_rejected() {
    // Long form with zero length bytes, more than four, or running past the end.
    assert!(spki_der_from_cert(&[0x30, 0x80]).is_none());
    assert!(spki_der_from_cert(&[0x30, 0x85, 0, 0, 0, 0, 1]).is_none());
    assert!(spki_der_from_cert(&[0x30, 0x82, 0x01]).is_none());
    assert!(spki_der_from_cert(&[0x31, 0x00]).is_none());
    let spki = tlv(0x30, &[7; 3]);
    let mut der = cert(false, &spki);
    der.truncate(der.len() - 1);
    assert!(spki_der_from_cert(&der).is_none());
}
