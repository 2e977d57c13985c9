use gaskiya::onboarding::{institution_keys, OnboardingError};
use gaskiya::signature::{generate_keypair, is_valid_public_key_hex, sign_hex, verify_hex};

#[test]
fn supplied_key_is_kept() {
    let (_sk, pk) = generate_keypair();
    assert_eq!(institution_keys(Some(&pk)), Ok((pk.clone(), None)));
}

#[test]
fn malformed_key_is_refused() {
    assert_eq!(institution_keys(Some("not-hex")), Err(OnboardingError::InvalidPublicKey));
    assert_eq!(institution_keys(Some("aabb")), Err(OnboardingError::InvalidPublicKey));
    assert_eq!(OnboardingError::InvalidPublicKey.message(), "public_key must be 64 hex characters (32 bytes)");
}

#[test]
fn issued_key_pair_signs_and_verifies() {
    let (public, private) = institution_keys(None).unwrap();
    let private = private.unwrap();
    assert!(is_valid_public_key_hex(&public));
    let sig = sign_hex(&private, b"hash").unwrap();
    assert_eq!(verify_hex(&public, b"hash", &sig), Ok(()));
}
