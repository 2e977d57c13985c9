//! SHA-256 digests and lowercase hex text, the two encodings every hash in
//! the ledger is made of.

use sha2::Digest;
use vstd::prelude::*;

verus! {

/// The SHA-256 digest of `data`.
pub uninterp spec fn spec_sha256(data: Seq<u8>) -> Seq<u8>;

/// Computes SHA-256 with `sha2::Sha256::digest`.
///
/// Trusted: the bytes returned are the SHA-256 digest of `data` (named by
/// `spec_sha256`, not restated here) and there are 32 of them, the output
/// size that `Sha256` is declared with.
#[verifier::external_body]
pub(crate) fn sha256_digest(data: &[u8]) -> (digest: Vec<u8>)
    ensures
        digest@ == spec_sha256(data@),
        digest@.len() == 32,
{
    sha2::Sha256::digest(data).to_vec()
}

/// The lowercase hex digit for a value below 16.
pub open spec fn hex_digit(n: int) -> char {
    if n < 10 {
        (48 + n) as char
    } else {
        (87 + n) as char
    }
}

/// Lowercase hex text of `data`: two digits per byte, high nibble first.
pub open spec fn spec_hex_encode(data: Seq<u8>) -> Seq<char> {
    Seq::new(
        2 * data.len(),
        |i: int|
            if i % 2 == 0 {
                hex_digit(data[i / 2] as int / 16)
            } else {
                hex_digit(data[i / 2] as int % 16)
            },
    )
}

/// The value of one hex digit, given as a byte; upper and lower case both count.
pub open spec fn hex_value(b: u8) -> Option<int> {
    if 48 <= b <= 57 {
        Some(b - 48)
    } else if 97 <= b <= 102 {
        Some(b - 87)
    } else if 65 <= b <= 70 {
        Some(b - 55)
    } else {
        None
    }
}

/// Hex text (as bytes) decoded: `None` for an odd length or a byte that is
/// not a hex digit, else one byte per pair of digits.
pub open spec fn spec_hex_decode(text: Seq<u8>) -> Option<Seq<u8>> {
    if text.len() % 2 != 0 {
        None
    } else if exists|i: int| 0 <= i < text.len() && #[trigger] hex_value(text[i]) is None {
        None
    } else {
        Some(
            Seq::new(
                text.len() / 2,
                |i: int| (hex_value(text[2 * i])->0 * 16 + hex_value(text[2 * i + 1])->0) as u8,
            ),
        )
    }
}

/// Encodes bytes as lowercase hex with `hex::encode`.
///
/// Trusted: the text is `spec_hex_encode(data)`, which is what `hex::encode`
/// computes from its lowercase digit table.
#[verifier::external_body]
pub(crate) fn hex_encode(data: &[u8]) -> (text: String)
    ensures
        text@ == spec_hex_encode(data@),
{
    hex::encode(data)
}

/// Decodes hex text with `hex::decode`, dropping the error detail.
///
/// Trusted: the result is `spec_hex_decode` of the text's UTF-8 bytes, which
/// is what `hex::decode` computes: an odd byte count or a non-hex byte is an
/// error, and both letter cases are accepted.
#[verifier::external_body]
pub(crate) fn hex_decode(text: &str) -> (bytes: Option<Vec<u8>>)
    ensures
        match bytes {
            Some(b) => spec_hex_decode(vstd::utf8::encode_utf8(text@)) == Some(b@),
            None => spec_hex_decode(vstd::utf8::encode_utf8(text@)) is None,
        },
{
    hex::decode(text).ok()
}

/// `a` followed by `b`, in a fresh vector.
pub(crate) fn concat_bytes(a: &[u8], b: &[u8]) -> (out: Vec<u8>)
    ensures
        out@ == a@ + b@,
{
    let mut out: Vec<u8> = Vec::new();
    for i in 0..a.len()
        invariant
            out@ == a@.take(i as int),
    {
        out.push(a[i]);
        assert(a@.take(i + 1) == a@.take(i as int).push(a@[i as int]));
    }
    assert(a@.take(a@.len() as int) == a@);
    for j in 0..b.len()
        invariant
            out@ == a@ + b@.take(j as int),
    {
        out.push(b[j]);
        assert(b@.take(j + 1) == b@.take(j as int).push(b@[j as int]));
    }
    assert(b@.take(b@.len() as int) == b@);
    out
}

/// A node's text as the hash functions see it.
pub open spec fn text_view(layer: Seq<String>) -> Seq<Seq<char>> {
    layer.map_values(|s: String| s@)
}

/// Whether `list` holds a string with the same text as `s`.
pub(crate) fn contains_text(list: &Vec<String>, s: &String) -> (found: bool)
    ensures
        found == text_view(list@).contains(s@),
{
    for j in 0..list.len()
        invariant
            forall|k: int| 0 <= k < j ==> text_view(list@)[k] != s@,
    {
        if list[j] == *s {
            assert(text_view(list@)[j as int] == s@);
            return true;
        }
    }
    false
}

/// Pushing a string pushes its text.
pub proof fn lemma_text_view_push(layer: Seq<String>, s: String)
    ensures
        text_view(layer.push(s)) == text_view(layer).push(s@),
{
    assert(text_view(layer.push(s)) =~= text_view(layer).push(s@));
}

/// Lowercase hex text of the SHA-256 digest of `data`.
pub open spec fn spec_sha256_hex(data: Seq<u8>) -> Seq<char> {
    spec_hex_encode(spec_sha256(data))
}

/// Hashes `data` with SHA-256 and returns the digest as lowercase hex.
pub fn sha256_hex(data: &[u8]) -> (hex: String)
    ensures
        hex@ == spec_sha256_hex(data@),
        hex@.len() == 64,
{
    let digest = sha256_digest(data);
    hex_encode(digest.as_slice())
}

/// Hex text is ASCII, so its UTF-8 bytes are its characters one for one.
pub proof fn lemma_hex_encode_bytes(data: Seq<u8>)
    ensures
        vstd::utf8::encode_utf8(spec_hex_encode(data)) == Seq::new(
            2 * data.len(),
            |i: int| spec_hex_encode(data)[i] as u8,
        ),
{
    let t = spec_hex_encode(data);
    assert(vstd::utf8::is_ascii_chars(t)) by {
        assert forall|i: int| 0 <= i < t.len() implies '\0' <= #[trigger] t[i] <= '\u{7f}' by {
            let d = if i % 2 == 0 { data[i / 2] as int / 16 } else { data[i / 2] as int % 16 };
            assert(0 <= d < 16);
        }
    }
    vstd::utf8::is_ascii_chars_encode_utf8(t);
    assert(vstd::utf8::encode_utf8(t) =~= Seq::new(2 * data.len(), |i: int| t[i] as u8));
}

/// Decoding the hex text of some bytes gives those bytes back.
pub proof fn lemma_hex_round_trip(data: Seq<u8>)
    ensures
        spec_hex_decode(vstd::utf8::encode_utf8(spec_hex_encode(data))) == Some(data),
{
    lemma_hex_encode_bytes(data);
    let b = vstd::utf8::encode_utf8(spec_hex_encode(data));
    assert forall|i: int| 0 <= i < b.len() implies #[trigger] hex_value(b[i]) is Some by {
        let d = if i % 2 == 0 { data[i / 2] as int / 16 } else { data[i / 2] as int % 16 };
        assert(0 <= d < 16);
    }
    let decoded = spec_hex_decode(b)->0;
    assert forall|i: int| 0 <= i < data.len() implies decoded[i] == data[i] by {
        assert(b[2 * i] == (hex_digit(data[i] as int / 16) as u8));
        assert(b[2 * i + 1] == (hex_digit(data[i] as int % 16) as u8));
    }
    assert(decoded =~= data);
}

} // verus!
