//! Onboarding an institution: it either brings its own Ed25519 public key,
//! which must be well-formed, or is issued a fresh key pair whose private
//! half it receives once (it is never stored).

use vstd::prelude::*;

use crate::signature::{generate_keypair, hex_bytes_of_len, is_key_pair, is_valid_public_key_hex};

verus! {

/// Why an institution could not be onboarded.
#[derive(Debug, Clone, Copy, PartialEq, Eq, Structural)]
pub enum OnboardingError {
    /// The supplied public key is not 32 bytes of hex.
    InvalidPublicKey,
}

impl OnboardingError {
    /// The explanation returned to the client.
    pub fn message(&self) -> (text: &'static str)
        ensures
            text@ == "public_key must be 64 hex characters (32 bytes)"@,
    {
        "public_key must be 64 hex characters (32 bytes)"
    }
}

/// The keys an institution is onboarded with, as `(public key, private
/// key issued now)`: a supplied public key is kept as it is when it is 32
/// bytes of hex, and refused otherwise; without one, a fresh key pair is
/// generated and its private half returned.
pub fn institution_keys(requested_public_key: Option<&str>) -> (keys: Result<(String, Option<String>), OnboardingError>)
    ensures
        match requested_public_key {
            Some(pk) => match keys {
                Ok((public, issued)) => hex_bytes_of_len(pk@, 32) is Some && public@ == pk@ && issued is None,
                Err(e) => hex_bytes_of_len(pk@, 32) is None && e == OnboardingError::InvalidPublicKey,
            },
            None => match keys {
                Ok((public, Some(private))) => is_key_pair(private@, public@),
                _ => false,
            },
        },
{
    match requested_public_key {
        Some(pk) => {
            if !is_valid_public_key_hex(pk) {
                return Err(OnboardingError::InvalidPublicKey);
            }
            Ok((pk.to_owned(), None))
        },
        None => {
            let (private_key, public_key) = generate_keypair();
            Ok((public_key, Some(private_key)))
        },
    }
}

} // verus!
