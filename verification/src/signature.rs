//! Institutional signatures: Ed25519 over a version's content hash,
//! checked against the institution's registered public key before a
//! listing is marked institutionally verified. Keys and signatures travel
//! as lowercase hex text.

use ed25519_dalek::{Signer, Verifier};
use vstd::prelude::*;

use crate::hashing::{hex_decode, hex_encode, lemma_hex_round_trip, spec_hex_decode, spec_hex_encode};

verus! {

broadcast use vstd::array::group_array_axioms;

/// The Ed25519 public key of a 32-byte secret key.
pub uninterp spec fn spec_ed25519_public_key(secret: [u8; 32]) -> [u8; 32];

/// The Ed25519 signature of `message` under a 32-byte secret key.
pub uninterp spec fn spec_ed25519_sign(secret: [u8; 32], message: Seq<u8>) -> [u8; 64];

/// Whether 32 bytes decode to a point of the curve, i.e. are a usable public key.
pub uninterp spec fn spec_ed25519_key_decodes(public: [u8; 32]) -> bool;

/// Whether `signature` verifies for `message` under the (decodable) public key.
pub uninterp spec fn spec_ed25519_verify(public: [u8; 32], message: Seq<u8>, signature: [u8; 64]) -> bool;

/// Draws a fresh secret key with `ed25519_dalek::SigningKey::generate` from
/// the operating system's generator. Trusted for nothing but its type: the
/// bytes are random.
#[verifier::external_body]
fn ed25519_generate_secret() -> (secret: [u8; 32]) {
    ed25519_dalek::SigningKey::generate(&mut rand::rngs::OsRng).to_bytes()
}

/// The public key of a secret key, from `SigningKey::verifying_key`.
///
/// Trusted: the result is `spec_ed25519_public_key(secret)`, a function of
/// the secret alone.
#[verifier::external_body]
fn ed25519_public_key(secret: &[u8; 32]) -> (public: [u8; 32])
    ensures
        public == spec_ed25519_public_key(*secret),
{
    ed25519_dalek::SigningKey::from_bytes(secret).verifying_key().to_bytes()
}

/// Signs `message` with `Signer::sign` of `SigningKey`.
///
/// Trusted: the signature is `spec_ed25519_sign(secret, message)`; Ed25519
/// signing is deterministic, so it is a function of its arguments.
#[verifier::external_body]
fn ed25519_sign(secret: &[u8; 32], message: &[u8]) -> (signature: [u8; 64])
    ensures
        signature == spec_ed25519_sign(*secret, message@),
{
    ed25519_dalek::SigningKey::from_bytes(secret).sign(message).to_bytes()
}

/// Whether `VerifyingKey::from_bytes` accepts `public`.
///
/// Trusted: the answer is `spec_ed25519_key_decodes(public)`, and the public
/// key of any secret key is accepted (it is the compression of a curve point).
#[verifier::external_body]
fn ed25519_key_decodes(public: &[u8; 32]) -> (decodes: bool)
    ensures
        decodes == spec_ed25519_key_decodes(*public),
        (exists|secret: [u8; 32]| *public == spec_ed25519_public_key(secret)) ==> decodes,
{
    ed25519_dalek::VerifyingKey::from_bytes(public).is_ok()
}

/// Checks a signature with `Verifier::verify` of `VerifyingKey` (the key is
/// rebuilt from `public` with `VerifyingKey::from_bytes`, which `requires`
/// makes infallible, and the signature with `Signature::from_bytes`).
///
/// Trusted: the answer is `spec_ed25519_verify(public, message, signature)`,
/// and a signature made by [`ed25519_sign`] with the secret key behind
/// `public` verifies (Ed25519 correctness). Nothing is claimed about
/// forgeries.
#[verifier::external_body]
fn ed25519_verify(public: &[u8; 32], message: &[u8], signature: &[u8; 64]) -> (accepted: bool)
    requires
        spec_ed25519_key_decodes(*public),
    ensures
        accepted == spec_ed25519_verify(*public, message@, *signature),
        (exists|secret: [u8; 32]|
            *public == spec_ed25519_public_key(secret) && *signature == spec_ed25519_sign(
                secret,
                message@,
            )) ==> accepted,
{
    match ed25519_dalek::VerifyingKey::from_bytes(public) {
        Ok(key) => key.verify(message, &ed25519_dalek::Signature::from_bytes(signature)).is_ok(),
        Err(_) => false,
    }
}

/// Why a signing or verification request failed.
#[derive(Debug, Clone, PartialEq, Eq, Structural)]
pub enum SignatureError {
    /// A key that is not hex, not 32 bytes, or (for a public key) not a curve point.
    InvalidPublicKey,
    /// A signature that is not hex or not 64 bytes.
    InvalidSignatureEncoding,
    /// A well-formed signature that does not verify for the key and message.
    VerificationFailed,
}

/// The bytes of hex text, when it decodes to exactly `n` of them.
pub open spec fn hex_bytes_of_len(text: Seq<char>, n: nat) -> Option<Seq<u8>> {
    match spec_hex_decode(vstd::utf8::encode_utf8(text)) {
        Some(b) => if b.len() == n {
            Some(b)
        } else {
            None
        },
        None => None,
    }
}

/// Arrays with the same bytes are the same array.
proof fn lemma_array_32_eq(a: [u8; 32], b: [u8; 32])
    requires
        a@ == b@,
    ensures
        a == b,
{
    assert forall|i: int| 0 <= i < 32 implies a[i] == b[i] by {
        assert(a[i] == a@[i] && b[i] == b@[i]);
    }
    assert(a =~= b);
}

/// Arrays with the same bytes are the same array.
proof fn lemma_array_64_eq(a: [u8; 64], b: [u8; 64])
    requires
        a@ == b@,
    ensures
        a == b,
{
    assert forall|i: int| 0 <= i < 64 implies a[i] == b[i] by {
        assert(a[i] == a@[i] && b[i] == b@[i]);
    }
    assert(a =~= b);
}

/// Copies 32 bytes into an array.
fn to_array_32(bytes: &Vec<u8>) -> (out: [u8; 32])
    requires
        bytes@.len() == 32,
    ensures
        out@ == bytes@,
{
    let mut out = [0u8; 32];
    for i in 0..32
        invariant
            bytes@.len() == 32,
            out@.len() == 32,
            forall|k: int| 0 <= k < i ==> out@[k] == bytes@[k],
    {
        out[i] = bytes[i];
    }
    assert(out@ =~= bytes@);
    out
}

/// Copies 64 bytes into an array.
fn to_array_64(bytes: &Vec<u8>) -> (out: [u8; 64])
    requires
        bytes@.len() == 64,
    ensures
        out@ == bytes@,
{
    let mut out = [0u8; 64];
    for i in 0..64
        invariant
            bytes@.len() == 64,
            out@.len() == 64,
            forall|k: int| 0 <= k < i ==> out@[k] == bytes@[k],
    {
        out[i] = bytes[i];
    }
    assert(out@ =~= bytes@);
    out
}

/// Decodes hex text that must hold exactly `n` bytes.
fn decode_hex_of_len(text: &str, n: usize) -> (bytes: Option<Vec<u8>>)
    ensures
        match bytes {
            Some(b) => hex_bytes_of_len(text@, n as nat) == Some(b@),
            None => hex_bytes_of_len(text@, n as nat) is None,
        },
{
    match hex_decode(text) {
        Some(b) => if b.len() == n {
            Some(b)
        } else {
            None
        },
        None => None,
    }
}

/// `private_key_hex` and `public_key_hex` are the hex halves of one
/// Ed25519 key pair.
pub open spec fn is_key_pair(private_key_hex: Seq<char>, public_key_hex: Seq<char>) -> bool {
    exists|secret: [u8; 32]|
        private_key_hex == spec_hex_encode(secret@) && public_key_hex == spec_hex_encode(
            spec_ed25519_public_key(secret)@,
        )
}

/// `signature_hex` is the hex Ed25519 signature of `message` under the
/// secret key whose hex public key is `public_key_hex`.
pub open spec fn signed_by_key_pair(public_key_hex: Seq<char>, message: Seq<u8>, signature_hex: Seq<char>) -> bool {
    exists|secret: [u8; 32]|
        public_key_hex == spec_hex_encode(spec_ed25519_public_key(secret)@) && signature_hex
            == spec_hex_encode(spec_ed25519_sign(secret, message)@)
}

/// Generates a fresh Ed25519 key pair for onboarding an institution, as
/// hex `(private, public)`. The private half is handed to the institution
/// and never stored server-side.
pub fn generate_keypair() -> (pair: (String, String))
    ensures
        is_key_pair(pair.0@, pair.1@),
{
    let secret = ed25519_generate_secret();
    let public = ed25519_public_key(&secret);
    let private_hex = hex_encode(vstd::array::array_as_slice(&secret));
    let public_hex = hex_encode(vstd::array::array_as_slice(&public));
    (private_hex, public_hex)
}

/// What [`sign_hex`] gives for a hex private key and a message.
pub open spec fn spec_sign_hex(private_key_hex: Seq<char>, message: Seq<u8>) -> Result<Seq<char>, SignatureError> {
    match hex_bytes_of_len(private_key_hex, 32) {
        Some(secret) => Ok(spec_hex_encode(spec_ed25519_sign(bytes_to_array_32(secret), message)@)),
        None => Err(SignatureError::InvalidPublicKey),
    }
}

/// 32 bytes as an array.
pub open spec fn bytes_to_array_32(bytes: Seq<u8>) -> [u8; 32] {
    choose|a: [u8; 32]| a@ == bytes
}

/// Signs `message` with a hex-encoded private key, returning the hex
/// signature; a key that is not hex or not 32 bytes is rejected.
pub fn sign_hex(private_key_hex: &str, message: &[u8]) -> (signature: Result<String, SignatureError>)
    ensures
        match signature {
            Ok(s) => spec_sign_hex(private_key_hex@, message@) == Ok::<Seq<char>, SignatureError>(s@),
            Err(e) => spec_sign_hex(private_key_hex@, message@) == Err::<Seq<char>, SignatureError>(e),
        },
{
    match decode_hex_of_len(private_key_hex, 32) {
        None => Err(SignatureError::InvalidPublicKey),
        Some(key_bytes) => {
            let secret = to_array_32(&key_bytes);
            proof {
                assert(secret@ == key_bytes@);
                assert(bytes_to_array_32(key_bytes@)@ == key_bytes@);
                lemma_array_32_eq(bytes_to_array_32(key_bytes@), secret);
            }
            let signature = ed25519_sign(&secret, message);
            Ok(hex_encode(vstd::array::array_as_slice(&signature)))
        },
    }
}

/// Whether hex text is a 32-byte public key.
pub fn is_valid_public_key_hex(public_key_hex: &str) -> (valid: bool)
    ensures
        valid == hex_bytes_of_len(public_key_hex@, 32) is Some,
{
    decode_hex_of_len(public_key_hex, 32).is_some()
}

/// What [`verify_hex`] gives: the public key is checked first (hex, length,
/// curve point), then the signature encoding (hex, length), then the
/// signature itself.
pub open spec fn spec_verify_hex(public_key_hex: Seq<char>, message: Seq<u8>, signature_hex: Seq<char>) -> Result<(), SignatureError> {
    match hex_bytes_of_len(public_key_hex, 32) {
        None => Err(SignatureError::InvalidPublicKey),
        Some(pk) => if !spec_ed25519_key_decodes(bytes_to_array_32(pk)) {
            Err(SignatureError::InvalidPublicKey)
        } else {
            match hex_bytes_of_len(signature_hex, 64) {
                None => Err(SignatureError::InvalidSignatureEncoding),
                Some(sig) => if spec_ed25519_verify(bytes_to_array_32(pk), message, bytes_to_array_64(sig)) {
                    Ok(())
                } else {
                    Err(SignatureError::VerificationFailed)
                },
            }
        },
    }
}

/// 64 bytes as an array.
pub open spec fn bytes_to_array_64(bytes: Seq<u8>) -> [u8; 64] {
    choose|a: [u8; 64]| a@ == bytes
}

/// Verifies a hex signature over `message` against a hex public key.
/// Whatever the key and message, a signature made with the matching
/// private key verifies.
pub fn verify_hex(public_key_hex: &str, message: &[u8], signature_hex: &str) -> (result: Result<(), SignatureError>)
    ensures
        result == spec_verify_hex(public_key_hex@, message@, signature_hex@),
        signed_by_key_pair(public_key_hex@, message@, signature_hex@) ==> result is Ok,
{
    let ghost signed_by = exists|secret: [u8; 32]|
        public_key_hex@ == spec_hex_encode(spec_ed25519_public_key(secret)@) && signature_hex@
            == spec_hex_encode(spec_ed25519_sign(secret, message@)@);
    proof {
        if signed_by {
            let secret = choose|secret: [u8; 32]|
                public_key_hex@ == spec_hex_encode(spec_ed25519_public_key(secret)@) && signature_hex@
                    == spec_hex_encode(spec_ed25519_sign(secret, message@)@);
            lemma_hex_round_trip(spec_ed25519_public_key(secret)@);
            lemma_hex_round_trip(spec_ed25519_sign(secret, message@)@);
        }
    }
    let pk_bytes = match decode_hex_of_len(public_key_hex, 32) {
        None => return Err(SignatureError::InvalidPublicKey),
        Some(b) => b,
    };
    let public = to_array_32(&pk_bytes);
    proof {
        assert(public@ == pk_bytes@);
        assert(bytes_to_array_32(pk_bytes@)@ == pk_bytes@);
        lemma_array_32_eq(bytes_to_array_32(pk_bytes@), public);
        if signed_by {
            let secret = choose|secret: [u8; 32]|
                public_key_hex@ == spec_hex_encode(spec_ed25519_public_key(secret)@) && signature_hex@
                    == spec_hex_encode(spec_ed25519_sign(secret, message@)@);
            lemma_array_32_eq(public, spec_ed25519_public_key(secret));
        }
    }
    if !ed25519_key_decodes(&public) {
        return Err(SignatureError::InvalidPublicKey);
    }
    let sig_bytes = match decode_hex_of_len(signature_hex, 64) {
        None => return Err(SignatureError::InvalidSignatureEncoding),
        Some(b) => b,
    };
    let signature = to_array_64(&sig_bytes);
    proof {
        assert(signature@ == sig_bytes@);
        assert(bytes_to_array_64(sig_bytes@)@ == sig_bytes@);
        lemma_array_64_eq(bytes_to_array_64(sig_bytes@), signature);
        if signed_by {
            let secret = choose|secret: [u8; 32]|
                public_key_hex@ == spec_hex_encode(spec_ed25519_public_key(secret)@) && signature_hex@
                    == spec_hex_encode(spec_ed25519_sign(secret, message@)@);
            lemma_array_32_eq(public, spec_ed25519_public_key(secret));
            lemma_array_64_eq(signature, spec_ed25519_sign(secret, message@));
        }
    }
    if ed25519_verify(&public, message, &signature) {
        Ok(())
    } else {
        Err(SignatureError::VerificationFailed)
    }
}

/// Signing any message with the private half of a key pair succeeds and
/// gives a signature made by that pair, which [`verify_hex`] therefore
/// accepts for the public half: what an institution signs with the key it
/// was issued always verifies.
pub proof fn lemma_key_pair_signatures_verify(private_key_hex: Seq<char>, public_key_hex: Seq<char>, message: Seq<u8>)
    requires
        is_key_pair(private_key_hex, public_key_hex),
    ensures
        spec_sign_hex(private_key_hex, message) is Ok,
        signed_by_key_pair(public_key_hex, message, spec_sign_hex(private_key_hex, message)->Ok_0),
{
    let secret = choose|secret: [u8; 32]|
        private_key_hex == spec_hex_encode(secret@) && public_key_hex == spec_hex_encode(
            spec_ed25519_public_key(secret)@,
        );
    lemma_hex_round_trip(secret@);
    assert(hex_bytes_of_len(private_key_hex, 32) == Some(secret@));
    assert(bytes_to_array_32(secret@)@ == secret@);
    lemma_array_32_eq(bytes_to_array_32(secret@), secret);
}

} // verus!
