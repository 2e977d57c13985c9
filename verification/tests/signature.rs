use gaskiya::hashing::sha256_hex;
use gaskiya::signature::{generate_keypair, is_valid_public_key_hex, sign_hex, verify_hex, SignatureError};

#[test]
fn valid_signature_verifies() {
    let (sk, pk) = generate_keypair();
    let sig = sign_hex(&sk, b"content-hash-bytes").unwrap();
    assert!(verify_hex(&pk, b"content-hash-bytes", &sig).is_ok());
}

#[test]
fn tampered_message_fails_verification() {
    let (sk, pk) = generate_keypair();
    let sig = sign_hex(&sk, b"original message").unwrap();
    assert_eq!(verify_hex(&pk, b"tampered message", &sig), Err(SignatureError::VerificationFailed));
}

#[test]
fn wrong_public_key_fails_verification() {
    let (sk, _pk) = generate_keypair();
    let (_other_sk, other_pk) = generate_keypair();
    let sig = sign_hex(&sk, b"message").unwrap();
    assert_eq!(verify_hex(&other_pk, b"message", &sig), Err(SignatureError::VerificationFailed));
}

#[test]
fn validates_public_key_length() {
    let (_sk, pk) = generate_keypair();
    assert!(is_valid_public_key_hex(&pk));
    assert!(!is_valid_public_key_hex("not-hex"));
    assert!(!is_valid_public_key_hex("aabb"));
}

#[test]
fn malformed_public_key_is_rejected() {
    let (sk, _pk) = generate_keypair();
    let sig = sign_hex(&sk, b"message").unwrap();
    assert_eq!(verify_hex("not-hex", b"message", &sig), Err(SignatureError::InvalidPublicKey));
}

#[test]
fn generated_keys_are_32_bytes_of_hex() {
    let (sk, pk) = generate_keypair();
    assert_eq!(sk.len(), 64);
    assert_eq!(pk.len(), 64);
    assert!(is_valid_public_key_hex(&sk));
    let (sk2, _) = generate_keypair();
    assert_ne!(sk, sk2);
}

#[test]
fn signatures_are_64_bytes_of_hex_and_deterministic() {
    let (sk, _pk) = generate_keypair();
    let a = sign_hex(&sk, b"hash").unwrap();
    let b = sign_hex(&sk, b"hash").unwrap();
    assert_eq!(a.len(), 128);
    assert_eq!(a, b);
    assert_ne!(a, sign_hex(&sk, b"other").unwrap());
}

#[test]
fn known_key_signs_rfc8032_test_vector() {
    let secret = "9d61b19deffd5a60ba844af492ec2cc44449c5697b326919703bac031cae7f60";
    let public = "d75a980182b10ab7d54bfed3c964073a0ee172f3daa62325af021a68f707511a";
    let expected = "e5564300c360ac729086e2cc806e828a84877f1eb8e5d974d873e065224901555fb8821590a33bacc61e39701cf9b46bd25bf5f0595bbe24655141438e7a100b";
    assert_eq!(sign_hex(secret, b"").unwrap(), expected);
    assert!(verify_hex(public, b"", expected).is_ok());
}

#[test]
fn bad_private_key_is_refused() {
    assert_eq!(sign_hex("zz", b"m"), Err(SignatureError::InvalidPublicKey));
    assert_eq!(sign_hex("aabb", b"m"), Err(SignatureError::InvalidPublicKey));
}

#[test]
fn malformed_signature_is_reported() {
    let (_sk, pk) = generate_keypair();
    assert_eq!(verify_hex(&pk, b"m", "not-hex"), Err(SignatureError::InvalidSignatureEncoding));
    assert_eq!(verify_hex(&pk, b"m", "aabb"), Err(SignatureError::InvalidSignatureEncoding));
}

#[test]
fn institution_signs_a_content_hash() {
    let (sk, pk) = generate_keypair();
    let hash = sha256_hex(b"{\"title\":\"Grant\"}");
    let sig = sign_hex(&sk, hash.as_bytes()).unwrap();
    assert_eq!(verify_hex(&pk, hash.as_bytes(), &sig), Ok(()));
}

#[test]
fn key_that_is_not_a_curve_point_is_rejected() {
    let (sk, _pk) = generate_keypair();
    let sig = sign_hex(&sk, b"message").unwrap();
    let mut bytes = [0u8; 32];
    let mut found = None;
    for b in 0..=255u8 {
        bytes[0] = b;
        bytes[31] = 0x7f;
        if ed25519_dalek::VerifyingKey::from_bytes(&bytes).is_err() {
            found = Some(bytes);
            break;
        }
    }
    let bad = found.expect("some 32-byte string is not a point");
    let bad_hex: String = bad.iter().map(|b| format!("{b:02x}")).collect();
    assert!(is_valid_public_key_hex(&bad_hex));
    assert_eq!(verify_hex(&bad_hex, b"message", &sig), Err(SignatureError::InvalidPublicKey));
}
