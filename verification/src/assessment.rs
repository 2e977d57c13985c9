//! Recomputing a listing's trust from its stored history and the
//! community's signals: which versions carry a valid institutional
//! signature, whether the listing copies another one, and the status and
//! score that follow. The records are read by the caller; everything
//! decided from them is here.

use vstd::prelude::*;

use crate::models::{ListingVersionRow, Timestamp};
use crate::signature::{spec_verify_hex, verify_hex};
use crate::text::{
    jaccard_counts, join_fields, lemma_jaccard_bounded, normalize_text, spec_jaccard_counts,
    spec_normalize_text,
};
use crate::trust::{
    detect_post_verification_pivot, is_first_pivot, spec_decide_status, spec_red_flags, spec_score,
    structural_red_flags, compute_score, decide_status, TrustStatus, SHINGLE_SIZE,
};

verus! {

/// A registered key as text, when there is one.
pub open spec fn key_text(key: Option<String>) -> Option<Seq<char>> {
    match key {
        Some(k) => Some(k@),
        None => None,
    }
}

/// `version` carries a valid institutional signature: an institution
/// authored it, it is signed, its author has a registered (verified)
/// public key, and the signature over the content hash verifies against
/// that key.
pub open spec fn spec_version_signature_valid(version: ListingVersionRow, registered_public_key: Option<Seq<char>>) -> bool {
    &&& version.author_type@ == "institution"@
    &&& version.signature is Some
    &&& registered_public_key is Some
    &&& spec_verify_hex(
        registered_public_key->0,
        vstd::utf8::encode_utf8(version.content_hash@),
        version.signature->0@,
    ) is Ok
}

/// Whether `version` carries a valid institutional signature, given the
/// registered public key of its author (`None` when the author is not an
/// onboarded institution).
pub fn version_signature_valid(version: &ListingVersionRow, registered_public_key: &Option<String>) -> (valid: bool)
    ensures
        valid == spec_version_signature_valid(*version, key_text(*registered_public_key)),
{
    let author = version.author_type.clone();
    if !(author == "institution".to_owned()) {
        return false;
    }
    match &version.signature {
        None => false,
        Some(sig) => match registered_public_key {
            None => false,
            Some(pk) => verify_hex(pk.as_str(), version.content_hash.as_str().as_bytes(), sig.as_str()).is_ok(),
        },
    }
}

/// The signature validity of every version, in order.
pub open spec fn spec_signature_validity(versions: Seq<ListingVersionRow>, registered_keys: Seq<Option<String>>) -> Seq<bool> {
    Seq::new(
        versions.len(),
        |i: int| spec_version_signature_valid(versions[i], key_text(registered_keys[i])),
    )
}

/// Checks the institutional signature of every version; `registered_keys[i]`
/// is the registered key of the author of `versions[i]`.
pub fn signature_validity(versions: &[ListingVersionRow], registered_keys: &[Option<String>]) -> (valid: Vec<bool>)
    requires
        registered_keys@.len() == versions@.len(),
    ensures
        valid@ == spec_signature_validity(versions@, registered_keys@),
{
    let mut valid: Vec<bool> = Vec::new();
    for i in 0..versions.len()
        invariant
            registered_keys@.len() == versions@.len(),
            valid@ == spec_signature_validity(versions@, registered_keys@).take(i as int),
    {
        let ok = version_signature_valid(&versions[i], &registered_keys[i]);
        valid.push(ok);
        assert(valid@ =~= spec_signature_validity(versions@, registered_keys@).take(i + 1));
    }
    assert(spec_signature_validity(versions@, registered_keys@).take(versions@.len() as int)
        =~= spec_signature_validity(versions@, registered_keys@));
    valid
}

/// The text a listing is compared by: title, description and eligibility,
/// joined and normalized.
pub open spec fn match_text(title: Seq<char>, description: Seq<char>, eligibility: Seq<char>) -> Seq<char> {
    spec_normalize_text(title + seq![' '] + description + seq![' '] + eligibility)
}

/// The normalized text a listing is compared by.
pub fn listing_match_text(title: &str, description: &str, eligibility: &str) -> (text: String)
    ensures
        text@ == match_text(title@, description@, eligibility@),
{
    let joined = join_fields(title, description, eligibility);
    normalize_text(joined.as_str())
}

/// How a listing duplicates another.
#[derive(Debug, Clone, Copy, PartialEq, Eq, Structural)]
pub enum DuplicateKind {
    /// Another listing has a version with the very same content hash.
    ExactDuplicate,
    /// The text nearly copies a flagged or confirmed-scam listing.
    NearDuplicateOfFlaggedListing,
}

impl DuplicateKind {
    /// The name shown in the trust rationale.
    pub fn as_str(&self) -> (name: &'static str)
        ensures
            name@ == match self {
                DuplicateKind::ExactDuplicate => "exact_duplicate"@,
                DuplicateKind::NearDuplicateOfFlaggedListing => "near_duplicate_of_flagged_listing"@,
            },
    {
        match self {
            DuplicateKind::ExactDuplicate => "exact_duplicate",
            DuplicateKind::NearDuplicateOfFlaggedListing => "near_duplicate_of_flagged_listing",
        }
    }
}

/// A duplicate found for a listing. Its similarity is
/// `shared_shingles / total_shingles` (1 for an exact duplicate).
#[derive(Debug, Clone, Copy, PartialEq, Eq, Structural)]
pub struct DuplicateFinding {
    pub kind: DuplicateKind,
    pub other_listing_id: u128,
    pub shared_shingles: u128,
    pub total_shingles: u128,
}

/// A flagged or confirmed-scam listing's current text, as a candidate
/// source that a listing may have copied.
#[derive(Debug, Clone)]
pub struct DuplicateCandidate {
    pub listing_id: u128,
    pub title: String,
    pub description: String,
    pub eligibility: String,
}

/// The similarity of a candidate to the normalized text, as
/// (shared shingles, all shingles).
pub open spec fn candidate_similarity(normalized: Seq<char>, candidate: DuplicateCandidate) -> (int, int) {
    spec_jaccard_counts(
        normalized,
        match_text(candidate.title@, candidate.description@, candidate.eligibility@),
        SHINGLE_SIZE as nat,
    )
}

/// A similarity of at least 0.8.
pub open spec fn near_duplicate(similarity: (int, int)) -> bool {
    5 * similarity.0 >= 4 * similarity.1
}

/// `s` is a strictly greater similarity than `t` (both with positive
/// denominators).
pub open spec fn more_similar(s: (int, int), t: (int, int)) -> bool {
    s.0 * t.1 > t.0 * s.1
}

/// Candidate `i` is the near-duplicate reported: it is near enough, no
/// near-enough candidate is more similar, and it is strictly more similar
/// than every near-enough candidate before it.
pub open spec fn is_best_near_duplicate(normalized: Seq<char>, candidates: Seq<DuplicateCandidate>, i: int) -> bool {
    &&& 0 <= i < candidates.len()
    &&& near_duplicate(candidate_similarity(normalized, candidates[i]))
    &&& forall|j: int|
        0 <= j < candidates.len() && near_duplicate(#[trigger] candidate_similarity(normalized, candidates[j]))
            ==> !more_similar(
            candidate_similarity(normalized, candidates[j]),
            candidate_similarity(normalized, candidates[i]),
        )
    &&& forall|j: int|
        0 <= j < i && near_duplicate(#[trigger] candidate_similarity(normalized, candidates[j])) ==> more_similar(
            candidate_similarity(normalized, candidates[i]),
            candidate_similarity(normalized, candidates[j]),
        )
}

/// What the duplicate check reports for a listing.
pub open spec fn duplicate_reported(
    exact_match: Option<u128>,
    normalized: Seq<char>,
    candidates: Seq<DuplicateCandidate>,
    found: Option<DuplicateFinding>,
) -> bool {
    match exact_match {
        Some(id) => found == Some(
            DuplicateFinding {
                kind: DuplicateKind::ExactDuplicate,
                other_listing_id: id,
                shared_shingles: 1,
                total_shingles: 1,
            },
        ),
        None => match found {
            None => forall|j: int|
                0 <= j < candidates.len() ==> !near_duplicate(
                    #[trigger] candidate_similarity(normalized, candidates[j]),
                ),
            Some(f) => exists|i: int|
                is_best_near_duplicate(normalized, candidates, i) && f == (DuplicateFinding {
                    kind: DuplicateKind::NearDuplicateOfFlaggedListing,
                    other_listing_id: candidates[i].listing_id,
                    shared_shingles: candidate_similarity(normalized, candidates[i]).0 as u128,
                    total_shingles: candidate_similarity(normalized, candidates[i]).1 as u128,
                }),
        },
    }
}

/// Dividing out the integer parts decides how two fractions compare.
proof fn lemma_compare_by_parts(a: int, b: int, c: int, d: int, q1: int, r1: int, q2: int, r2: int)
    requires
        b > 0,
        d > 0,
        a == b * q1 + r1,
        c == d * q2 + r2,
        0 <= r1 < b,
        0 <= r2 < d,
    ensures
        q1 > q2 ==> a * d > c * b,
        q1 < q2 ==> a * d < c * b,
        q1 == q2 ==> (a * d > c * b <==> r1 * d > r2 * b),
{
    assert(a * d - c * b == b * d * (q1 - q2) + r1 * d - r2 * b) by (nonlinear_arith)
        requires
            a == b * q1 + r1,
            c == d * q2 + r2,
    ;
    assert(0 <= r1 * d < b * d) by (nonlinear_arith)
        requires
            0 <= r1 < b,
            d > 0,
    ;
    assert(0 <= r2 * b < d * b) by (nonlinear_arith)
        requires
            0 <= r2 < d,
            b > 0,
    ;
    assert(q1 > q2 ==> b * d * (q1 - q2) >= b * d) by (nonlinear_arith)
        requires
            b > 0,
            d > 0,
    ;
    assert(q1 < q2 ==> b * d * (q1 - q2) <= -(b * d)) by (nonlinear_arith)
        requires
            b > 0,
            d > 0,
    ;
    assert(q1 == q2 ==> b * d * (q1 - q2) == 0) by (nonlinear_arith);
    assert(b * d == d * b) by (nonlinear_arith);
}

/// Whether `a / b > c / d`, exactly and without overflow.
fn fraction_greater(a: u128, b: u128, c: u128, d: u128) -> (greater: bool)
    requires
        b > 0,
        d > 0,
    ensures
        greater == (a * d > c * b),
    decreases b + d,
{
    let q1 = a / b;
    let r1 = a % b;
    let q2 = c / d;
    let r2 = c % d;
    proof {
        vstd::arithmetic::div_mod::lemma_fundamental_div_mod(a as int, b as int);
        vstd::arithmetic::div_mod::lemma_fundamental_div_mod(c as int, d as int);
        vstd::arithmetic::div_mod::lemma_mod_pos_bound(a as int, b as int);
        vstd::arithmetic::div_mod::lemma_mod_pos_bound(c as int, d as int);
        lemma_compare_by_parts(a as int, b as int, c as int, d as int, q1 as int, r1 as int, q2 as int, r2 as int);
    }
    if q1 != q2 {
        return q1 > q2;
    }
    if r1 == 0 {
        assert(r2 * b >= 0 && r1 * d == 0) by (nonlinear_arith)
            requires
                r2 >= 0,
                b >= 0,
                r1 == 0,
        ;
        return false;
    }
    if r2 == 0 {
        assert(r1 * d > 0 && r2 * b == 0) by (nonlinear_arith)
            requires
                r1 > 0,
                d > 0,
                r2 == 0,
        ;
        return true;
    }
    let reversed = fraction_greater(d, r2, b, r1);
    assert((d * r1 > b * r2) == (r1 * d > r2 * b)) by (nonlinear_arith);
    reversed
}

/// A similarity that is no greater than a second, which a third exceeds,
/// is exceeded by the third too.
proof fn lemma_more_similar_through(a: (int, int), b: (int, int), c: (int, int))
    requires
        a.1 > 0,
        b.1 > 0,
        c.1 > 0,
        !more_similar(a, b),
        more_similar(c, b),
    ensures
        more_similar(c, a),
        !more_similar(a, c),
{
    let (a0, a1) = a;
    let (b0, b1) = b;
    let (c0, c1) = c;
    assert(c0 * a1 > a0 * c1) by (nonlinear_arith)
        requires
            a1 > 0,
            b1 > 0,
            c1 > 0,
            a0 * b1 <= b0 * a1,
            c0 * b1 > b0 * c1,
    {
        assert(a0 * b1 * c1 <= b0 * a1 * c1);
        assert(c0 * b1 * a1 > b0 * c1 * a1);
        assert(a0 * c1 * b1 < c0 * a1 * b1);
    }
}

/// The duplicate check of a listing. An exact match (another listing with
/// the same content hash, found by the caller) is reported as an exact
/// duplicate with similarity 1. Otherwise the listing's normalized text is
/// compared with the text of every flagged or confirmed-scam candidate, and
/// the most similar candidate at 0.8 or above (the first of equals) is
/// reported as a near-duplicate.
pub fn select_duplicate(
    exact_match: Option<u128>,
    normalized_text: &str,
    candidates: &[DuplicateCandidate],
) -> (found: Option<DuplicateFinding>)
    ensures
        duplicate_reported(exact_match, normalized_text@, candidates@, found),
{
    if let Some(id) = exact_match {
        return Some(
            DuplicateFinding {
                kind: DuplicateKind::ExactDuplicate,
                other_listing_id: id,
                shared_shingles: 1,
                total_shingles: 1,
            },
        );
    }
    let ghost norm = normalized_text@;
    let mut best: Option<(usize, u128, u128)> = None;
    for k in 0..candidates.len()
        invariant
            norm == normalized_text@,
            match best {
                None => forall|j: int|
                    0 <= j < k ==> !near_duplicate(#[trigger] candidate_similarity(norm, candidates@[j])),
                Some((b, s, t)) => {
                    &&& b < k
                    &&& (s as int, t as int) == candidate_similarity(norm, candidates@[b as int])
                    &&& t > 0
                    &&& near_duplicate(candidate_similarity(norm, candidates@[b as int]))
                    &&& forall|j: int|
                        0 <= j < k && near_duplicate(#[trigger] candidate_similarity(norm, candidates@[j]))
                            ==> !more_similar(
                            candidate_similarity(norm, candidates@[j]),
                            candidate_similarity(norm, candidates@[b as int]),
                        )
                    &&& forall|j: int|
                        0 <= j < b && near_duplicate(#[trigger] candidate_similarity(norm, candidates@[j]))
                            ==> more_similar(
                            candidate_similarity(norm, candidates@[b as int]),
                            candidate_similarity(norm, candidates@[j]),
                        )
                },
            },
            forall|j: int| 0 <= j < k ==> #[trigger] candidate_similarity(norm, candidates@[j]).1 > 0,
    {
        let c = &candidates[k];
        let other = listing_match_text(c.title.as_str(), c.description.as_str(), c.eligibility.as_str());
        let (shared, total) = jaccard_counts(normalized_text, other.as_str(), SHINGLE_SIZE);
        let ghost sim = candidate_similarity(norm, candidates@[k as int]);
        proof {
            lemma_jaccard_bounded(norm, other@, SHINGLE_SIZE as nat);
            assert(sim == (shared as int, total as int));
        }
        if 5 * shared >= 4 * total {
            let better = match best {
                None => true,
                Some((_, bs, bt)) => fraction_greater(shared, total, bs, bt),
            };
            if better {
                proof {
                    if let Some((b, bs, bt)) = best {
                        let bsim = candidate_similarity(norm, candidates@[b as int]);
                        assert forall|j: int|
                            0 <= j < k + 1 && near_duplicate(
                                #[trigger] candidate_similarity(norm, candidates@[j]),
                            ) && j != k implies more_similar(
                            sim,
                            candidate_similarity(norm, candidates@[j]),
                        ) by {
                            if j != b as int {
                                lemma_more_similar_through(
                                    candidate_similarity(norm, candidates@[j]),
                                    bsim,
                                    sim,
                                );
                            }
                        }
                    }
                }
                best = Some((k, shared, total));
            }
        }
    }
    match best {
        None => None,
        Some((b, s, t)) => {
            let found = DuplicateFinding {
                kind: DuplicateKind::NearDuplicateOfFlaggedListing,
                other_listing_id: candidates[b].listing_id,
                shared_shingles: s,
                total_shingles: t,
            };
            assert(is_best_near_duplicate(norm, candidates@, b as int));
            Some(found)
        },
    }
}

/// The text the red-flag rules read: the current (last) version's
/// description, eligibility and contact joined with spaces; empty when
/// there is no version.
pub open spec fn red_flag_text(versions: Seq<ListingVersionRow>) -> Seq<char> {
    if versions.len() == 0 {
        seq![]
    } else {
        versions.last().description@ + seq![' '] + versions.last().eligibility@ + seq![' ']
            + versions.last().contact@
    }
}

/// The current (last) version carries a valid institutional signature.
pub open spec fn current_signature_valid(versions: Seq<ListingVersionRow>, registered_keys: Seq<Option<String>>) -> bool {
    versions.len() > 0 && spec_signature_validity(versions, registered_keys).last()
}

/// Whether a flag of that name was raised.
fn contains_flag(flags: &Vec<&'static str>, name: &str) -> (found: bool)
    ensures
        found == flags@.map_values(|f: &'static str| f@).contains(name@),
{
    let ghost names = flags@.map_values(|f: &'static str| f@);
    let target = name.to_owned();
    for i in 0..flags.len()
        invariant
            names == flags@.map_values(|f: &'static str| f@),
            target@ == name@,
            forall|j: int| 0 <= j < i ==> names[j] != name@,
    {
        let flag = flags[i].to_owned();
        if flag == target {
            assert(names[i as int] == name@);
            return true;
        }
    }
    assert forall|x: Seq<char>| names.contains(x) implies x != name@ by {
        let j = choose|j: int| 0 <= j < names.len() && names[j] == x;
    }
    false
}

/// The outcome of recomputing a listing's trust.
pub struct TrustAssessment {
    /// The new status.
    pub status: TrustStatus,
    /// The score, in whole points.
    pub score: i128,
    /// The current version carries a valid institutional signature.
    pub signature_valid: bool,
    /// The index of the first post-verification pivot, if any.
    pub pivot_index: Option<usize>,
    /// The structural red flags of the current version.
    pub red_flags: Vec<&'static str>,
}

/// Recomputes a listing's trust from every signal: the versions in
/// version-number order with the registered key of each one's author
/// (`None` when the author is not an onboarded institution), the time of
/// the first corroboration, the number of independent corroborations and
/// of reports, whether a duplicate was found, and the latest recorded
/// status. The pivot check sees which versions are validly signed; the red
/// flags read the current version's description, eligibility and contact;
/// the status follows the lifecycle and the score its weights, a confirmed
/// scam scoring -100.
pub fn assess_trust(
    versions: &[ListingVersionRow],
    registered_keys: &[Option<String>],
    first_corroboration_at: Option<Timestamp>,
    corroboration_count: i64,
    report_count: i64,
    duplicate_found: bool,
    prior_status: Option<TrustStatus>,
) -> (assessment: TrustAssessment)
    requires
        registered_keys@.len() == versions@.len(),
    ensures
        assessment.signature_valid == current_signature_valid(versions@, registered_keys@),
        is_first_pivot(
            versions@,
            spec_signature_validity(versions@, registered_keys@),
            first_corroboration_at,
            assessment.pivot_index,
        ),
        assessment.red_flags@.map_values(|f: &'static str| f@) == spec_red_flags(red_flag_text(versions@)),
        assessment.status == spec_decide_status(
            prior_status,
            assessment.pivot_index is Some,
            report_count as int,
            duplicate_found,
            spec_red_flags(red_flag_text(versions@)).contains("requests_upfront_payment"@),
            assessment.signature_valid,
            corroboration_count as int,
        ),
        assessment.score == spec_score(
            assessment.signature_valid,
            corroboration_count as int,
            report_count as int,
            assessment.pivot_index is Some,
            duplicate_found,
            spec_red_flags(red_flag_text(versions@)).contains("requests_upfront_payment"@),
            spec_red_flags(red_flag_text(versions@)).contains("urgency_pressure_language"@),
            assessment.status == TrustStatus::ConfirmedScam,
        ),
{
    let valid = signature_validity(versions, registered_keys);
    let n = versions.len();
    let signature_valid = n > 0 && valid[n - 1];
    let pivot_index = detect_post_verification_pivot(versions, valid.as_slice(), first_corroboration_at);
    let red_flags = if n > 0 {
        let current = &versions[n - 1];
        let text = join_fields(current.description.as_str(), current.eligibility.as_str(), current.contact.as_str());
        assert(text@ == red_flag_text(versions@));
        structural_red_flags(text.as_str())
    } else {
        proof {
            reveal_strlit("");
        }
        assert(""@ =~= red_flag_text(versions@));
        structural_red_flags("")
    };
    assert(red_flags@.map_values(|f: &'static str| f@) == spec_red_flags(red_flag_text(versions@)));
    let upfront = contains_flag(&red_flags, "requests_upfront_payment");
    let urgency = contains_flag(&red_flags, "urgency_pressure_language");
    let status = decide_status(
        prior_status,
        pivot_index.is_some(),
        report_count,
        duplicate_found,
        upfront,
        signature_valid,
        corroboration_count,
    );
    let confirmed = status == TrustStatus::ConfirmedScam;
    let score = compute_score(
        signature_valid,
        corroboration_count,
        report_count,
        pivot_index.is_some(),
        duplicate_found,
        upfront,
        urgency,
        confirmed,
    );
    TrustAssessment { status, score, signature_valid, pivot_index, red_flags }
}

} // verus!
