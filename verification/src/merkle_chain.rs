//! Per-listing hash chaining: each version's `content_hash` is the SHA-256
//! of its canonical content, and each version's `prev_version_hash` must be
//! the previous version's `content_hash`. An edit that rewrites history
//! shows up as a chain that no longer links.

use vstd::prelude::*;

use crate::hashing::{sha256_hex, spec_sha256_hex};
use crate::models::ListingVersionRow;

verus! {

/// The two hashes of one version that the chain check looks at.
#[derive(Debug, Clone)]
pub struct VersionLink {
    pub content_hash: String,
    pub prev_version_hash: Option<String>,
}

/// Why a sequence of versions does not form a hash chain.
#[derive(Debug, Clone, PartialEq, Eq, Structural)]
pub enum ChainError {
    /// A version after the first carries no `prev_version_hash`.
    MissingPrevHash(usize),
    /// The first version carries a `prev_version_hash`.
    FirstVersionHasPrev,
    /// A version's `prev_version_hash` differs from the previous version's `content_hash`.
    BrokenLink { index: usize },
}

/// The defect of version `i` in the chain, if it has one.
pub open spec fn link_error(versions: Seq<VersionLink>, i: int) -> Option<ChainError> {
    if i == 0 {
        if versions[0].prev_version_hash is Some {
            Some(ChainError::FirstVersionHasPrev)
        } else {
            None
        }
    } else {
        match versions[i].prev_version_hash {
            None => Some(ChainError::MissingPrevHash(i as usize)),
            Some(h) => if h@ != versions[i - 1].content_hash@ {
                Some(ChainError::BrokenLink { index: i as usize })
            } else {
                None
            },
        }
    }
}

/// Every version links to the one before it, and the first links to nothing.
pub open spec fn chain_is_valid(versions: Seq<VersionLink>) -> bool {
    forall|i: int| 0 <= i < versions.len() ==> #[trigger] link_error(versions, i) is None
}

/// Checks that `versions` (in version-number order) form an unbroken hash
/// chain, reporting the first defect. It does not re-derive `content_hash`
/// from content; [`content_hash`] and [`matches_content`] do that.
pub fn verify_chain(versions: &[VersionLink]) -> (r: Result<(), ChainError>)
    ensures
        r is Ok <==> chain_is_valid(versions@),
        r matches Err(e) ==> exists|i: int|
            0 <= i < versions@.len() && link_error(versions@, i) == Some(e) && forall|j: int|
                0 <= j < i ==> #[trigger] link_error(versions@, j) is None,
{
    let n = versions.len();
    for i in 0..n
        invariant
            n == versions@.len(),
            forall|j: int| 0 <= j < i ==> #[trigger] link_error(versions@, j) is None,
    {
        let v = &versions[i];
        if i == 0 {
            if v.prev_version_hash.is_some() {
                assert(link_error(versions@, 0) == Some(ChainError::FirstVersionHasPrev));
                return Err(ChainError::FirstVersionHasPrev);
            }
        } else {
            let expected = &versions[i - 1].content_hash;
            match &v.prev_version_hash {
                None => {
                    assert(link_error(versions@, i as int) == Some(ChainError::MissingPrevHash(i)));
                    return Err(ChainError::MissingPrevHash(i));
                },
                Some(actual) => {
                    if !(*actual == *expected) {
                        assert(link_error(versions@, i as int) == Some(
                            ChainError::BrokenLink { index: i },
                        ));
                        return Err(ChainError::BrokenLink { index: i });
                    }
                },
            }
        }
        assert(link_error(versions@, i as int) is None);
    }
    Ok(())
}

/// A single first version is a valid chain exactly when it links to nothing.
pub proof fn lemma_first_version_chain(first: VersionLink)
    ensures
        chain_is_valid(seq![first]) <==> first.prev_version_hash is None,
{
    assert(link_error(seq![first], 0) is None <==> first.prev_version_hash is None);
}

/// Appending a version whose `prev_version_hash` is the last version's
/// `content_hash` keeps a valid chain valid: the way every edit is recorded
/// never breaks the chain.
pub proof fn lemma_append_keeps_chain_valid(versions: Seq<VersionLink>, next: VersionLink)
    requires
        chain_is_valid(versions),
        versions.len() > 0,
        next.prev_version_hash matches Some(h) && h@ == versions.last().content_hash@,
    ensures
        chain_is_valid(versions.push(next)),
{
    let ext = versions.push(next);
    assert forall|i: int| 0 <= i < ext.len() implies #[trigger] link_error(ext, i) is None by {
        if i < versions.len() {
            assert(link_error(versions, i) is None);
            if i > 0 {
                assert(ext[i] == versions[i] && ext[i - 1] == versions[i - 1]);
            } else {
                assert(ext[0] == versions[0]);
            }
        }
    }
}

/// Changing the `prev_version_hash` of a later version away from its
/// predecessor's `content_hash` makes the chain invalid: tampering with a
/// stored link cannot go unnoticed.
pub proof fn lemma_relinked_version_breaks_chain(versions: Seq<VersionLink>, i: int, forged: String)
    requires
        0 < i < versions.len(),
        forged@ != versions[i - 1].content_hash@,
    ensures
        !chain_is_valid(
            versions.update(
                i,
                VersionLink {
                    content_hash: versions[i].content_hash,
                    prev_version_hash: Some(forged),
                },
            ),
        ),
{
    let t = versions.update(
        i,
        VersionLink { content_hash: versions[i].content_hash, prev_version_hash: Some(forged) },
    );
    assert(link_error(t, i) is Some);
}

/// The content hash of a version whose canonical JSON text is `canonical_json`.
pub open spec fn spec_content_hash(canonical_json: Seq<char>) -> Seq<char> {
    spec_sha256_hex(vstd::utf8::encode_utf8(canonical_json))
}

/// Hashes a version's canonical content: the SHA-256, as lowercase hex, of
/// the UTF-8 bytes of its canonical JSON text (object keys in sorted order).
pub fn content_hash(canonical_json: &str) -> (hash: String)
    ensures
        hash@ == spec_content_hash(canonical_json@),
{
    sha256_hex(canonical_json.as_bytes())
}

/// Recomputes the content hash from canonical content and compares it with
/// the hash stored on the version: the check that does not take the
/// server's word for it.
pub fn matches_content(canonical_json: &str, expected_hash: &str) -> (matches: bool)
    ensures
        matches == (spec_content_hash(canonical_json@) == expected_hash@),
{
    let recomputed = content_hash(canonical_json);
    let expected = expected_hash.to_owned();
    recomputed == expected
}

/// The chain links of stored versions, in the same order.
pub fn chain_links(versions: &[ListingVersionRow]) -> (links: Vec<VersionLink>)
    ensures
        links@.len() == versions@.len(),
        forall|i: int|
            0 <= i < versions@.len() ==> (#[trigger] links@[i]).content_hash@ == versions@[i].content_hash@
                && match (links@[i].prev_version_hash, versions@[i].prev_version_hash) {
                (Some(a), Some(b)) => a@ == b@,
                (None, None) => true,
                _ => false,
            },
{
    let mut links: Vec<VersionLink> = Vec::new();
    for i in 0..versions.len()
        invariant
            links@.len() == i,
            forall|k: int|
                0 <= k < i ==> (#[trigger] links@[k]).content_hash@ == versions@[k].content_hash@
                    && match (links@[k].prev_version_hash, versions@[k].prev_version_hash) {
                    (Some(a), Some(b)) => a@ == b@,
                    (None, None) => true,
                    _ => false,
                },
    {
        let v = &versions[i];
        let prev = match &v.prev_version_hash {
            Some(h) => Some(h.clone()),
            None => None,
        };
        links.push(VersionLink { content_hash: v.content_hash.clone(), prev_version_hash: prev });
    }
    links
}

/// The chain fields of the version that follows a listing's latest one.
#[derive(Debug, Clone)]
pub struct NextVersionLink {
    /// One past the latest version's number.
    pub version_number: i32,
    /// The latest version's content hash, which the new version links to.
    pub prev_version_hash: String,
    /// The latest version's shard: a listing never changes shard.
    pub shard_id: Option<i32>,
}

/// Links an edit to the listing's latest version: the next number, the
/// latest content hash as the new `prev_version_hash`, and the same shard.
pub fn next_version_link(latest: &ListingVersionRow) -> (link: NextVersionLink)
    requires
        latest.version_number < i32::MAX,
    ensures
        link.version_number == latest.version_number + 1,
        link.prev_version_hash@ == latest.content_hash@,
        link.shard_id == latest.shard_id,
{
    NextVersionLink {
        version_number: latest.version_number + 1,
        prev_version_hash: latest.content_hash.clone(),
        shard_id: latest.shard_id,
    }
}

} // verus!
