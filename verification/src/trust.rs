//! The deterministic, explainable trust rules: post-verification pivot
//! detection, structural red flags, the score and the status lifecycle.
//! Every signal is a plain rule a reader can audit.

use vstd::prelude::*;

use crate::models::{AuthorType, ListingVersionRow, Timestamp};
use crate::signature::{spec_verify_hex, verify_hex};
use crate::text::{spec_contains, spec_to_lowercase, str_contains, to_lowercase};

verus! {

/// Corroborations from distinct accounts needed for `community_verified`.
pub const COMMUNITY_VERIFIED_THRESHOLD: i64 = 3;

/// Reports that flag a listing on their own.
pub const FLAGGED_REPORT_THRESHOLD: i64 = 5;

/// Word count of the shingles used for near-duplicate detection.
pub const SHINGLE_SIZE: usize = 3;

/// The application link or the contact differs between two versions.
pub open spec fn sensitive_fields_changed(prev: ListingVersionRow, next: ListingVersionRow) -> bool {
    prev.application_url@ != next.application_url@ || prev.contact@ != next.contact@
}

/// Title, description, eligibility and deadline are the same in two versions.
pub open spec fn other_fields_unchanged(prev: ListingVersionRow, next: ListingVersionRow) -> bool {
    &&& prev.title@ == next.title@
    &&& prev.description@ == next.description@
    &&& prev.eligibility@ == next.eligibility@
    &&& prev.deadline == next.deadline
}

/// Before version `i` was written the listing had earned trust: an
/// earlier version carried a valid institutional signature, or the first
/// corroboration came before version `i` was created.
pub open spec fn trusted_before(
    versions: Seq<ListingVersionRow>,
    signature_valid: Seq<bool>,
    first_corroboration_at: Option<Timestamp>,
    i: int,
) -> bool {
    ||| exists|j: int| 0 <= j < i && #[trigger] signature_valid[j]
    ||| first_corroboration_at matches Some(t) && t < versions[i].created_at
}

/// Version `i` is a verify-then-pivot edit: made after trust was earned,
/// it changes the application link or contact and nothing else.
pub open spec fn is_pivot(
    versions: Seq<ListingVersionRow>,
    signature_valid: Seq<bool>,
    first_corroboration_at: Option<Timestamp>,
    i: int,
) -> bool {
    &&& 0 < i < versions.len()
    &&& trusted_before(versions, signature_valid, first_corroboration_at, i)
    &&& sensitive_fields_changed(versions[i - 1], versions[i])
    &&& other_fields_unchanged(versions[i - 1], versions[i])
}

/// `found` is the first pivot of the history: the index of the earliest
/// version that is a pivot, or `None` when no version is one.
pub open spec fn is_first_pivot(
    versions: Seq<ListingVersionRow>,
    signature_valid: Seq<bool>,
    first_corroboration_at: Option<Timestamp>,
    found: Option<usize>,
) -> bool {
    match found {
        Some(i) => is_pivot(versions, signature_valid, first_corroboration_at, i as int)
            && forall|j: int|
            0 <= j < i ==> !#[trigger] is_pivot(versions, signature_valid, first_corroboration_at, j),
        None => forall|j: int|
            0 <= j < versions.len() ==> !#[trigger] is_pivot(
                versions,
                signature_valid,
                first_corroboration_at,
                j,
            ),
    }
}

/// The flagship detection routine: the index of the first version (in
/// version-number order) that changes `application_url` and/or `contact`
/// while leaving every other field untouched, after the listing had
/// already earned trust (an institutional signature on an earlier version,
/// or a corroboration before this version was created). That "everything
/// else the same" shape is what separates a legitimate full update from a
/// verify-then-pivot attack.
pub fn detect_post_verification_pivot(
    versions: &[ListingVersionRow],
    institution_signature_valid: &[bool],
    first_corroboration_at: Option<Timestamp>,
) -> (pivot: Option<usize>)
    requires
        institution_signature_valid@.len() == versions@.len(),
    ensures
        is_first_pivot(versions@, institution_signature_valid@, first_corroboration_at, pivot),
{
    let ghost sigs = institution_signature_valid@;
    let mut institution_verified_seen = false;
    for i in 0..versions.len()
        invariant
            sigs == institution_signature_valid@,
            sigs.len() == versions@.len(),
            institution_verified_seen == exists|j: int| 0 <= j < i && #[trigger] sigs[j],
            forall|j: int|
                0 <= j < i ==> !#[trigger] is_pivot(versions@, sigs, first_corroboration_at, j),
    {
        if i > 0 {
            let corroborated_before = match first_corroboration_at {
                Some(t) => t < versions[i].created_at,
                None => false,
            };
            let had_trust_before = institution_verified_seen || corroborated_before;
            assert(had_trust_before == trusted_before(versions@, sigs, first_corroboration_at, i as int));
            if had_trust_before {
                let prev = &versions[i - 1];
                let next = &versions[i];
                let sensitive_changed = !(prev.application_url == next.application_url) || !(prev.contact
                    == next.contact);
                let other_fields_same = prev.title == next.title && prev.description == next.description
                    && prev.eligibility == next.eligibility && prev.deadline == next.deadline;
                if sensitive_changed && other_fields_same {
                    return Some(i);
                }
            }
        }
        if institution_signature_valid[i] {
            institution_verified_seen = true;
        }
        assert(institution_verified_seen == exists|j: int| 0 <= j < i + 1 && #[trigger] sigs[j]) by {
            if sigs[i as int] {
                assert(0 <= i < i + 1 && sigs[i as int]);
            }
        }
    }
    None
}

/// A listing that never earned trust (no valid institutional signature on
/// any version and no corroboration) never shows a pivot, whatever its edits.
pub proof fn lemma_no_pivot_without_trust(versions: Seq<ListingVersionRow>, signature_valid: Seq<bool>, i: int)
    requires
        forall|j: int| 0 <= j < signature_valid.len() ==> !#[trigger] signature_valid[j],
        signature_valid.len() == versions.len(),
    ensures
        !is_pivot(versions, signature_valid, None, i),
{
}

/// Fee language that asks for upfront payment.
pub open spec fn mentions_upfront_fee(lower: Seq<char>) -> bool {
    ||| spec_contains(lower, "processing fee"@)
    ||| spec_contains(lower, "release your funds"@)
    ||| spec_contains(lower, "release the funds"@)
    ||| spec_contains(lower, "administrative fee"@)
    ||| spec_contains(lower, "activation fee"@)
    ||| spec_contains(lower, "fee to release"@)
    ||| spec_contains(lower, "pay to receive"@)
}

/// Pressure language that pushes for haste.
pub open spec fn mentions_urgency(lower: Seq<char>) -> bool {
    ||| spec_contains(lower, "act now"@)
    ||| spec_contains(lower, "limited time"@)
    ||| spec_contains(lower, "immediately or lose"@)
    ||| spec_contains(lower, "offer expires today"@)
    ||| spec_contains(lower, "last chance"@)
}

/// The red flags of text that is already lowercase, in order:
/// upfront-payment language first, then urgency language.
pub open spec fn spec_lowercase_red_flags(lower: Seq<char>) -> Seq<Seq<char>> {
    (if mentions_upfront_fee(lower) {
        seq!["requests_upfront_payment"@]
    } else {
        seq![]
    }) + (if mentions_urgency(lower) {
        seq!["urgency_pressure_language"@]
    } else {
        seq![]
    })
}

/// The red flags of `text`; matching ignores case.
pub open spec fn spec_red_flags(text: Seq<char>) -> Seq<Seq<char>> {
    spec_lowercase_red_flags(spec_to_lowercase(text))
}

/// The structural red flags of text that is already lowercase.
pub fn lowercase_red_flags(lower: &str) -> (flags: Vec<&'static str>)
    ensures
        flags@.map_values(|f: &'static str| f@) == spec_lowercase_red_flags(lower@),
{
    let l = lower;
    let fee = str_contains(l, "processing fee") || str_contains(l, "release your funds")
        || str_contains(l, "release the funds") || str_contains(l, "administrative fee")
        || str_contains(l, "activation fee") || str_contains(l, "fee to release")
        || str_contains(l, "pay to receive");
    let urgency = str_contains(l, "act now") || str_contains(l, "limited time") || str_contains(
        l,
        "immediately or lose",
    ) || str_contains(l, "offer expires today") || str_contains(l, "last chance");
    let mut flags: Vec<&'static str> = Vec::new();
    if fee {
        flags.push("requests_upfront_payment");
    }
    if urgency {
        flags.push("urgency_pressure_language");
    }
    assert(flags@.map_values(|f: &'static str| f@) =~= spec_lowercase_red_flags(lower@));
    flags
}

/// Rule-based structural red flags: narrow, high-precision phrase lists
/// rather than single keywords, so a listing that merely mentions a fee or
/// a real deadline is not flagged. Matching ignores case.
pub fn structural_red_flags(text: &str) -> (flags: Vec<&'static str>)
    ensures
        flags@.map_values(|f: &'static str| f@) == spec_red_flags(text@),
{
    let lower = to_lowercase(text);
    lowercase_red_flags(lower.as_str())
}

/// The trust score, in whole points.
pub open spec fn spec_score(
    signature_valid: bool,
    corroborations: int,
    reports: int,
    pivot: bool,
    duplicate: bool,
    upfront_payment_flag: bool,
    urgency_flag: bool,
    confirmed_scam: bool,
) -> int {
    if confirmed_scam {
        -100
    } else {
        (if signature_valid { 40int } else { 0 }) + (if corroborations < 3 {
            corroborations
        } else {
            3
        }) * 10 - reports * 15 - (if pivot { 100int } else { 0 }) - (if duplicate { 60int } else { 0 })
            - (if upfront_payment_flag { 60int } else { 0 }) - (if urgency_flag { 10int } else { 0 })
    }
}

/// The trust score: +40 for a valid institutional signature, +10 per
/// corroboration up to the community threshold, -15 per report, -100 for a
/// pivot, -60 for a duplicate, -60 for upfront-payment language, -10 for
/// urgency language; a confirmed scam scores -100 outright.
pub fn compute_score(
    signature_valid: bool,
    corroborations: i64,
    reports: i64,
    pivot: bool,
    duplicate: bool,
    upfront_payment_flag: bool,
    urgency_flag: bool,
    confirmed_scam: bool,
) -> (score: i128)
    ensures
        score == spec_score(
            signature_valid,
            corroborations as int,
            reports as int,
            pivot,
            duplicate,
            upfront_payment_flag,
            urgency_flag,
            confirmed_scam,
        ),
{
    if confirmed_scam {
        return -100;
    }
    let mut score: i128 = 0;
    if signature_valid {
        score = score + 40;
    }
    let counted: i64 = if corroborations < COMMUNITY_VERIFIED_THRESHOLD {
        corroborations
    } else {
        COMMUNITY_VERIFIED_THRESHOLD
    };
    score = score + counted as i128 * 10;
    score = score - reports as i128 * 15;
    if pivot {
        score = score - 100;
    }
    if duplicate {
        score = score - 60;
    }
    if upfront_payment_flag {
        score = score - 60;
    }
    if urgency_flag {
        score = score - 10;
    }
    score
}

/// A listing's trust status.
#[derive(Debug, Clone, Copy, PartialEq, Eq, Structural)]
pub enum TrustStatus {
    Unverified,
    CommunityVerified,
    InstitutionallyVerified,
    Flagged,
    ConfirmedScam,
}

impl TrustStatus {
    /// The status's name, as stored.
    pub open spec fn spec_name(self) -> Seq<char> {
        match self {
            TrustStatus::Unverified => "unverified"@,
            TrustStatus::CommunityVerified => "community_verified"@,
            TrustStatus::InstitutionallyVerified => "institutionally_verified"@,
            TrustStatus::Flagged => "flagged"@,
            TrustStatus::ConfirmedScam => "confirmed_scam"@,
        }
    }

    /// The status's name, as stored.
    pub fn as_str(&self) -> (name: &'static str)
        ensures
            name@ == self.spec_name(),
    {
        match self {
            TrustStatus::Unverified => "unverified",
            TrustStatus::CommunityVerified => "community_verified",
            TrustStatus::InstitutionallyVerified => "institutionally_verified",
            TrustStatus::Flagged => "flagged",
            TrustStatus::ConfirmedScam => "confirmed_scam",
        }
    }

    /// The status with a stored name, if any has it.
    pub fn from_name(name: &str) -> (status: Option<TrustStatus>)
        ensures
            match status {
                Some(s) => s.spec_name() == name@,
                None => forall|s: TrustStatus| #[trigger] s.spec_name() != name@,
            },
    {
        let n = name.to_owned();
        if n == "unverified".to_owned() {
            Some(TrustStatus::Unverified)
        } else if n == "community_verified".to_owned() {
            Some(TrustStatus::CommunityVerified)
        } else if n == "institutionally_verified".to_owned() {
            Some(TrustStatus::InstitutionallyVerified)
        } else if n == "flagged".to_owned() {
            Some(TrustStatus::Flagged)
        } else if n == "confirmed_scam".to_owned() {
            Some(TrustStatus::ConfirmedScam)
        } else {
            assert forall|s: TrustStatus| #[trigger] s.spec_name() != name@ by {
                match s {
                    TrustStatus::Unverified => {},
                    TrustStatus::CommunityVerified => {},
                    TrustStatus::InstitutionallyVerified => {},
                    TrustStatus::Flagged => {},
                    TrustStatus::ConfirmedScam => {},
                }
            }
            None
        }
    }
}

/// The status lifecycle. A confirmed scam stays one. Otherwise a pivot, a
/// report count at the threshold, a duplicate or upfront-payment language
/// flags the listing, and a flagged listing stays flagged until an admin
/// adjudicates. Otherwise a valid institutional signature on the current
/// version makes it institutionally verified, enough independent
/// corroborations make it community verified, and else it is unverified.
pub open spec fn spec_decide_status(
    prior_status: Option<TrustStatus>,
    pivot_detected: bool,
    report_count: int,
    duplicate_found: bool,
    upfront_payment_flag: bool,
    signature_valid: bool,
    corroboration_count: int,
) -> TrustStatus {
    if prior_status == Some(TrustStatus::ConfirmedScam) {
        TrustStatus::ConfirmedScam
    } else if pivot_detected || report_count >= FLAGGED_REPORT_THRESHOLD || duplicate_found
        || upfront_payment_flag {
        TrustStatus::Flagged
    } else if prior_status == Some(TrustStatus::Flagged) {
        TrustStatus::Flagged
    } else if signature_valid {
        TrustStatus::InstitutionallyVerified
    } else if corroboration_count >= COMMUNITY_VERIFIED_THRESHOLD {
        TrustStatus::CommunityVerified
    } else {
        TrustStatus::Unverified
    }
}

/// Decides a listing's new status from its latest status and the signals
/// just recomputed (see [`spec_decide_status`]).
pub fn decide_status(
    prior_status: Option<TrustStatus>,
    pivot_detected: bool,
    report_count: i64,
    duplicate_found: bool,
    upfront_payment_flag: bool,
    signature_valid: bool,
    corroboration_count: i64,
) -> (status: TrustStatus)
    ensures
        status == spec_decide_status(
            prior_status,
            pivot_detected,
            report_count as int,
            duplicate_found,
            upfront_payment_flag,
            signature_valid,
            corroboration_count as int,
        ),
{
    if prior_status == Some(TrustStatus::ConfirmedScam) {
        TrustStatus::ConfirmedScam
    } else if pivot_detected || report_count >= FLAGGED_REPORT_THRESHOLD || duplicate_found
        || upfront_payment_flag {
        TrustStatus::Flagged
    } else if prior_status == Some(TrustStatus::Flagged) {
        TrustStatus::Flagged
    } else if signature_valid {
        TrustStatus::InstitutionallyVerified
    } else if corroboration_count >= COMMUNITY_VERIFIED_THRESHOLD {
        TrustStatus::CommunityVerified
    } else {
        TrustStatus::Unverified
    }
}

/// A confirmed scam is terminal: no recomputation, whatever its signals,
/// moves it to another status, and its score is -100 whatever the signals.
pub proof fn lemma_confirmed_scam_is_sticky(
    pivot_detected: bool,
    report_count: int,
    duplicate_found: bool,
    upfront_payment_flag: bool,
    urgency_flag: bool,
    signature_valid: bool,
    corroboration_count: int,
)
    ensures
        spec_decide_status(
            Some(TrustStatus::ConfirmedScam),
            pivot_detected,
            report_count,
            duplicate_found,
            upfront_payment_flag,
            signature_valid,
            corroboration_count,
        ) == TrustStatus::ConfirmedScam,
        spec_score(
            signature_valid,
            corroboration_count,
            report_count,
            pivot_detected,
            duplicate_found,
            upfront_payment_flag,
            urgency_flag,
            true,
        ) == -100,
{
}

/// Once flagged, a listing stays flagged: no signature or corroboration
/// count takes it back without an admin's adjudication.
pub proof fn lemma_flagged_is_sticky(
    pivot_detected: bool,
    report_count: int,
    duplicate_found: bool,
    upfront_payment_flag: bool,
    signature_valid: bool,
    corroboration_count: int,
)
    ensures
        spec_decide_status(
            Some(TrustStatus::Flagged),
            pivot_detected,
            report_count,
            duplicate_found,
            upfront_payment_flag,
            signature_valid,
            corroboration_count,
        ) == TrustStatus::Flagged,
{
}

/// Any flagging signal (a pivot, enough reports, a duplicate, upfront-fee
/// language) flags a listing that is not a confirmed scam, however trusted
/// it was: no signature outweighs it.
pub proof fn lemma_flagging_signal_flags(
    prior_status: Option<TrustStatus>,
    pivot_detected: bool,
    report_count: int,
    duplicate_found: bool,
    upfront_payment_flag: bool,
    signature_valid: bool,
    corroboration_count: int,
)
    requires
        prior_status != Some(TrustStatus::ConfirmedScam),
        pivot_detected || report_count >= FLAGGED_REPORT_THRESHOLD || duplicate_found
            || upfront_payment_flag,
    ensures
        spec_decide_status(
            prior_status,
            pivot_detected,
            report_count,
            duplicate_found,
            upfront_payment_flag,
            signature_valid,
            corroboration_count,
        ) == TrustStatus::Flagged,
{
}

/// The names of the fields that differ between two versions, in the order
/// title, description, eligibility, deadline, application_url, contact.
pub open spec fn spec_changed_fields(prev: ListingVersionRow, next: ListingVersionRow) -> Seq<Seq<char>> {
    (if prev.title@ != next.title@ { seq!["title"@] } else { seq![] })
    + (if prev.description@ != next.description@ { seq!["description"@] } else { seq![] })
    + (if prev.eligibility@ != next.eligibility@ { seq!["eligibility"@] } else { seq![] })
    + (if prev.deadline != next.deadline { seq!["deadline"@] } else { seq![] })
    + (if prev.application_url@ != next.application_url@ { seq!["application_url"@] } else { seq![] })
    + (if prev.contact@ != next.contact@ { seq!["contact"@] } else { seq![] })
}

/// The per-version diff shown in a listing's history.
pub fn diff_fields(prev: &ListingVersionRow, next: &ListingVersionRow) -> (changed: Vec<&'static str>)
    ensures
        changed@.map_values(|f: &'static str| f@) == spec_changed_fields(*prev, *next),
{
    let mut changed: Vec<&'static str> = Vec::new();
    if !(prev.title == next.title) {
        changed.push("title");
    }
    if !(prev.description == next.description) {
        changed.push("description");
    }
    if !(prev.eligibility == next.eligibility) {
        changed.push("eligibility");
    }
    if prev.deadline != next.deadline {
        changed.push("deadline");
    }
    if !(prev.application_url == next.application_url) {
        changed.push("application_url");
    }
    if !(prev.contact == next.contact) {
        changed.push("contact");
    }
    assert(changed@.map_values(|f: &'static str| f@) =~= spec_changed_fields(*prev, *next));
    changed
}

/// The changed fields shown beside each version of a history: nothing for
/// the first version, the diff from its predecessor for every later one.
pub fn history_changes(versions: &[ListingVersionRow]) -> (changes: Vec<Vec<&'static str>>)
    ensures
        changes@.len() == versions@.len(),
        versions@.len() > 0 ==> changes@[0]@.len() == 0,
        forall|i: int|
            0 < i < versions@.len() ==> (#[trigger] changes@[i])@.map_values(|f: &'static str| f@)
                == spec_changed_fields(versions@[i - 1], versions@[i]),
{
    let mut changes: Vec<Vec<&'static str>> = Vec::new();
    for i in 0..versions.len()
        invariant
            changes@.len() == i,
            i > 0 ==> changes@[0]@.len() == 0,
            forall|k: int|
                0 < k < i ==> (#[trigger] changes@[k])@.map_values(|f: &'static str| f@)
                    == spec_changed_fields(versions@[k - 1], versions@[k]),
    {
        if i == 0 {
            changes.push(Vec::new());
        } else {
            let changed = diff_fields(&versions[i - 1], &versions[i]);
            changes.push(changed);
        }
    }
    changes
}

/// Why a corroboration was refused.
#[derive(Debug, Clone, Copy, PartialEq, Eq, Structural)]
pub enum CorroborationError {
    /// The corroborator authored the version being vouched for.
    OwnListing,
}

impl CorroborationError {
    /// The explanation returned to the client.
    pub fn message(&self) -> (text: &'static str)
        ensures
            text@ == "a listing's own author cannot corroborate it"@,
    {
        "a listing's own author cannot corroborate it"
    }
}

/// A corroboration counts only when it comes from someone other than the
/// author of the current version: self-corroboration is refused.
pub fn check_corroboration(current_author_id: u128, corroborator_id: u128) -> (checked: Result<(), CorroborationError>)
    ensures
        checked is Ok <==> current_author_id != corroborator_id,
        checked is Err ==> checked == Err::<(), CorroborationError>(CorroborationError::OwnListing),
{
    if current_author_id == corroborator_id {
        Err(CorroborationError::OwnListing)
    } else {
        Ok(())
    }
}

/// Why a submission's institutional signature was refused.
#[derive(Debug, Clone, Copy, PartialEq, Eq, Structural)]
pub enum SubmissionError {
    /// An institution submitted without a signature.
    MissingSignature,
    /// The author is not an onboarded (verified) institution.
    UnknownInstitution,
    /// The signature does not verify against the content hash.
    SignatureMismatch,
    /// A user-authored submission carries a signature, which only an
    /// institution may attach.
    UnexpectedSignature,
}

impl SubmissionError {
    /// The explanation returned to the client.
    pub fn message(&self) -> (text: &'static str)
        ensures
            text@ == match self {
                SubmissionError::MissingSignature => "institution submissions require a signature"@,
                SubmissionError::UnknownInstitution => "unknown or unverified institution"@,
                SubmissionError::SignatureMismatch => "institution signature does not verify against content hash"@,
                SubmissionError::UnexpectedSignature => "user submissions must not carry a signature"@,
            },
    {
        match self {
            SubmissionError::MissingSignature => "institution submissions require a signature",
            SubmissionError::UnknownInstitution => "unknown or unverified institution",
            SubmissionError::SignatureMismatch => "institution signature does not verify against content hash",
            SubmissionError::UnexpectedSignature => "user submissions must not carry a signature",
        }
    }
}

/// What the signature check of a submission decides.
pub open spec fn spec_check_submission(
    author_type: AuthorType,
    signature: Option<Seq<char>>,
    registered_public_key: Option<Seq<char>>,
    content_hash: Seq<char>,
) -> Result<(), SubmissionError> {
    if author_type != AuthorType::Institution {
        if signature is Some {
            Err(SubmissionError::UnexpectedSignature)
        } else {
            Ok(())
        }
    } else {
        match signature {
            None => Err(SubmissionError::MissingSignature),
            Some(sig) => match registered_public_key {
                None => Err(SubmissionError::UnknownInstitution),
                Some(pk) => if spec_verify_hex(pk, vstd::utf8::encode_utf8(content_hash), sig) is Ok {
                    Ok(())
                } else {
                    Err(SubmissionError::SignatureMismatch)
                },
            },
        }
    }
}

/// Checks the signature of a submission: a user's submission passes only
/// without a signature (only institutions sign); an institution's needs a
/// signature, a registered (verified) public key
/// for the author, and an Ed25519 signature over the content hash that
/// verifies against that key.
pub fn check_submission_signature(
    author_type: AuthorType,
    signature: Option<&str>,
    registered_public_key: Option<&str>,
    content_hash: &str,
) -> (checked: Result<(), SubmissionError>)
    ensures
        checked == spec_check_submission(
            author_type,
            match signature {
                Some(s) => Some(s@),
                None => None,
            },
            match registered_public_key {
                Some(k) => Some(k@),
                None => None,
            },
            content_hash@,
        ),
{
    if author_type != AuthorType::Institution {
        return match signature {
            Some(_) => Err(SubmissionError::UnexpectedSignature),
            None => Ok(()),
        };
    }
    let sig = match signature {
        None => return Err(SubmissionError::MissingSignature),
        Some(s) => s,
    };
    let public_key = match registered_public_key {
        None => return Err(SubmissionError::UnknownInstitution),
        Some(k) => k,
    };
    match verify_hex(public_key, content_hash.as_bytes(), sig) {
        Ok(()) => Ok(()),
        Err(_) => Err(SubmissionError::SignatureMismatch),
    }
}

/// Every report lowers the score, and corroborations never lower it: of
/// two otherwise equal listings that are not confirmed scams, the one with
/// more reports scores strictly less, and the one with more corroborations
/// scores at least as much (no more than the threshold's worth counts).
pub proof fn lemma_score_moves_with_community_signals(
    signature_valid: bool,
    corroborations: int,
    more_corroborations: int,
    reports: int,
    more_reports: int,
    pivot: bool,
    duplicate: bool,
    upfront_payment_flag: bool,
    urgency_flag: bool,
)
    requires
        0 <= corroborations <= more_corroborations,
        reports < more_reports,
    ensures
        spec_score(signature_valid, corroborations, more_reports, pivot, duplicate, upfront_payment_flag, urgency_flag, false)
            < spec_score(signature_valid, corroborations, reports, pivot, duplicate, upfront_payment_flag, urgency_flag, false),
        spec_score(signature_valid, corroborations, reports, pivot, duplicate, upfront_payment_flag, urgency_flag, false)
            <= spec_score(signature_valid, more_corroborations, reports, pivot, duplicate, upfront_payment_flag, urgency_flag, false),
        spec_score(signature_valid, more_corroborations, reports, pivot, duplicate, upfront_payment_flag, urgency_flag, false)
            - spec_score(signature_valid, corroborations, reports, pivot, duplicate, upfront_payment_flag, urgency_flag, false)
            <= 10 * COMMUNITY_VERIFIED_THRESHOLD,
{
}

/// A pivot is visible in the history as exactly that: the diff of the
/// pivoting version from its predecessor names the application link or the
/// contact (or both), and nothing else.
pub proof fn lemma_pivot_diff_is_sensitive_only(
    versions: Seq<ListingVersionRow>,
    signature_valid: Seq<bool>,
    first_corroboration_at: Option<Timestamp>,
    i: int,
)
    requires
        is_pivot(versions, signature_valid, first_corroboration_at, i),
    ensures
        spec_changed_fields(versions[i - 1], versions[i]).len() > 0,
        forall|k: int|
            0 <= k < spec_changed_fields(versions[i - 1], versions[i]).len() ==> {
                let f = #[trigger] spec_changed_fields(versions[i - 1], versions[i])[k];
                f == "application_url"@ || f == "contact"@
            },
{
    let prev = versions[i - 1];
    let next = versions[i];
    let d = spec_changed_fields(prev, next);
    let tail = (if prev.application_url@ != next.application_url@ { seq!["application_url"@] } else { seq![] })
        + (if prev.contact@ != next.contact@ { seq!["contact"@] } else { seq![] });
    assert(d =~= tail);
}

/// Pivot detection looks at nothing but earlier trust and the fields it
/// compares: a version after an earlier valid signature, or created after
/// the first corroboration, that changes the application link or the
/// contact and keeps title, description, eligibility and deadline is found
/// (the first pivot is no later than it), whoever authored it; and the
/// version found always has exactly that shape.
pub proof fn lemma_pivot_found(
    versions: Seq<ListingVersionRow>,
    signature_valid: Seq<bool>,
    first_corroboration_at: Option<Timestamp>,
    found: Option<usize>,
    i: int,
)
    requires
        is_first_pivot(versions, signature_valid, first_corroboration_at, found),
    ensures
        ({
            &&& 0 < i < versions.len()
            &&& (exists|j: int| 0 <= j < i && signature_valid[j]) || (first_corroboration_at matches Some(t)
                && t < versions[i].created_at)
            &&& versions[i - 1].application_url@ != versions[i].application_url@ || versions[i - 1].contact@
                != versions[i].contact@
            &&& versions[i - 1].title@ == versions[i].title@
            &&& versions[i - 1].description@ == versions[i].description@
            &&& versions[i - 1].eligibility@ == versions[i].eligibility@
            &&& versions[i - 1].deadline == versions[i].deadline
        }) ==> (found matches Some(k) && k <= i),
        found matches Some(k) ==> {
            &&& 0 < k < versions.len()
            &&& (exists|j: int| 0 <= j < k && signature_valid[j]) || (first_corroboration_at matches Some(t)
                && t < versions[k as int].created_at)
            &&& versions[k - 1].application_url@ != versions[k as int].application_url@ || versions[k
                - 1].contact@ != versions[k as int].contact@
            &&& versions[k - 1].title@ == versions[k as int].title@
            &&& versions[k - 1].description@ == versions[k as int].description@
            &&& versions[k - 1].eligibility@ == versions[k as int].eligibility@
            &&& versions[k - 1].deadline == versions[k as int].deadline
        },
{
    if 0 < i < versions.len() && ((exists|j: int| 0 <= j < i && signature_valid[j]) || (
    first_corroboration_at matches Some(t) && t < versions[i].created_at)) && (versions[i
        - 1].application_url@ != versions[i].application_url@ || versions[i - 1].contact@
        != versions[i].contact@) && versions[i - 1].title@ == versions[i].title@ && versions[i
        - 1].description@ == versions[i].description@ && versions[i - 1].eligibility@
        == versions[i].eligibility@ && versions[i - 1].deadline == versions[i].deadline {
        assert(is_pivot(versions, signature_valid, first_corroboration_at, i));
    }
}

/// Two histories that agree, version by version, on the compared fields
/// (application link, contact, title, description, eligibility, deadline)
/// and on creation times, with the same signatures and corroboration time,
/// have the same pivots: authorship and every other field play no part.
pub proof fn lemma_pivot_ignores_other_fields(
    versions: Seq<ListingVersionRow>,
    others: Seq<ListingVersionRow>,
    signature_valid: Seq<bool>,
    first_corroboration_at: Option<Timestamp>,
    found: Option<usize>,
)
    requires
        versions.len() == others.len(),
        forall|k: int|
            0 <= k < versions.len() ==> {
                &&& #[trigger] versions[k].application_url@ == others[k].application_url@
                &&& versions[k].contact@ == others[k].contact@
                &&& versions[k].title@ == others[k].title@
                &&& versions[k].description@ == others[k].description@
                &&& versions[k].eligibility@ == others[k].eligibility@
                &&& versions[k].deadline == others[k].deadline
                &&& versions[k].created_at == others[k].created_at
            },
    ensures
        is_first_pivot(versions, signature_valid, first_corroboration_at, found) <==> is_first_pivot(
            others,
            signature_valid,
            first_corroboration_at,
            found,
        ),
{
    assert forall|k: int|
        #![trigger is_pivot(versions, signature_valid, first_corroboration_at, k)]
        #![trigger is_pivot(others, signature_valid, first_corroboration_at, k)]
        is_pivot(versions, signature_valid, first_corroboration_at, k) <==> is_pivot(
            others,
            signature_valid,
            first_corroboration_at,
            k,
        ) by {
        if 0 < k < versions.len() {
            assert(versions[k].application_url@ == others[k].application_url@);
            assert(versions[k - 1].application_url@ == others[k - 1].application_url@);
        }
    }
}

/// Without a flagging signal (no pivot, fewer than five reports, no
/// duplicate, no upfront-fee language) and without a prior flagged or
/// confirmed-scam status, a valid signature on the current version makes a
/// listing institutionally verified whatever its corroborations; without
/// one, three or more corroborations make it community verified, and fewer
/// leave it unverified.
pub proof fn lemma_verified_statuses(
    prior_status: Option<TrustStatus>,
    report_count: int,
    signature_valid: bool,
    corroboration_count: int,
)
    requires
        prior_status != Some(TrustStatus::ConfirmedScam),
        prior_status != Some(TrustStatus::Flagged),
        report_count < 5,
    ensures
        signature_valid ==> spec_decide_status(prior_status, false, report_count, false, false, true, corroboration_count)
            == TrustStatus::InstitutionallyVerified,
        corroboration_count >= 3 ==> spec_decide_status(
            prior_status,
            false,
            report_count,
            false,
            false,
            false,
            corroboration_count,
        ) == TrustStatus::CommunityVerified,
        corroboration_count < 3 ==> spec_decide_status(
            prior_status,
            false,
            report_count,
            false,
            false,
            false,
            corroboration_count,
        ) == TrustStatus::Unverified,
{
}

/// Upfront-fee language is flagged whenever the lowercase text contains any
/// of the fee phrases, and only then; urgency language likewise for the
/// urgency phrases.
pub proof fn lemma_red_flag_phrases(lower: Seq<char>)
    ensures
        spec_lowercase_red_flags(lower).contains("requests_upfront_payment"@) <==> (spec_contains(
            lower,
            "processing fee"@,
        ) || spec_contains(lower, "release your funds"@) || spec_contains(lower, "release the funds"@)
            || spec_contains(lower, "administrative fee"@) || spec_contains(lower, "activation fee"@)
            || spec_contains(lower, "fee to release"@) || spec_contains(lower, "pay to receive"@)),
        spec_lowercase_red_flags(lower).contains("urgency_pressure_language"@) <==> (spec_contains(
            lower,
            "act now"@,
        ) || spec_contains(lower, "limited time"@) || spec_contains(lower, "immediately or lose"@)
            || spec_contains(lower, "offer expires today"@) || spec_contains(lower, "last chance"@)),
{
    reveal_strlit("requests_upfront_payment");
    reveal_strlit("urgency_pressure_language");
    let fee = "requests_upfront_payment"@;
    let urgency = "urgency_pressure_language"@;
    assert(fee != urgency) by {
        assert(fee.len() != urgency.len());
    }
    let f = spec_lowercase_red_flags(lower);
    if mentions_upfront_fee(lower) {
        assert(f[0] == fee);
    }
    if mentions_urgency(lower) {
        assert(f[f.len() - 1] == urgency);
    }
}

/// The red flags of any text are those of its lowercase form.
pub proof fn lemma_red_flags_ignore_case(text: Seq<char>)
    ensures
        spec_red_flags(text) == spec_lowercase_red_flags(spec_to_lowercase(text)),
{
}

/// A field's name is in the diff of two versions exactly when the two
/// versions differ in that field.
#[verifier::spinoff_prover]
#[verifier::rlimit(60)]
pub proof fn lemma_diff_names_exactly_the_changed_fields(prev: ListingVersionRow, next: ListingVersionRow)
    ensures
        spec_changed_fields(prev, next).contains("title"@) <==> prev.title@ != next.title@,
        spec_changed_fields(prev, next).contains("description"@) <==> prev.description@ != next.description@,
        spec_changed_fields(prev, next).contains("eligibility"@) <==> prev.eligibility@ != next.eligibility@,
        spec_changed_fields(prev, next).contains("deadline"@) <==> prev.deadline != next.deadline,
        spec_changed_fields(prev, next).contains("application_url"@) <==> prev.application_url@
            != next.application_url@,
        spec_changed_fields(prev, next).contains("contact"@) <==> prev.contact@ != next.contact@,
{
    reveal_strlit("title");
    reveal_strlit("description");
    reveal_strlit("eligibility");
    reveal_strlit("deadline");
    reveal_strlit("application_url");
    reveal_strlit("contact");
    let names = seq!["title"@, "description"@, "eligibility"@, "deadline"@, "application_url"@, "contact"@];
    assert forall|p: int, q: int| 0 <= p < q < 6 implies names[p] != names[q] by {
        if names[p].len() == names[q].len() {
            assert(names[p][0] != names[q][0]);
        }
    }
    let parts = seq![
        if prev.title@ != next.title@ { seq![names[0]] } else { seq![] },
        if prev.description@ != next.description@ { seq![names[1]] } else { seq![] },
        if prev.eligibility@ != next.eligibility@ { seq![names[2]] } else { seq![] },
        if prev.deadline != next.deadline { seq![names[3]] } else { seq![] },
        if prev.application_url@ != next.application_url@ { seq![names[4]] } else { seq![] },
        if prev.contact@ != next.contact@ { seq![names[5]] } else { seq![] },
    ];
    let d = spec_changed_fields(prev, next);
    assert(d == parts[0] + parts[1] + parts[2] + parts[3] + parts[4] + parts[5]);
    lemma_concat_contains(parts[0], parts[1]);
    lemma_concat_contains(parts[0] + parts[1], parts[2]);
    lemma_concat_contains(parts[0] + parts[1] + parts[2], parts[3]);
    lemma_concat_contains(parts[0] + parts[1] + parts[2] + parts[3], parts[4]);
    lemma_concat_contains(parts[0] + parts[1] + parts[2] + parts[3] + parts[4], parts[5]);
    assert forall|k: int, x: Seq<char>| 0 <= k < 6 implies #[trigger] parts[k].contains(x) <==> (parts[k].len() > 0
        && x == names[k]) by {
        if parts[k].len() > 0 {
            assert(parts[k][0] == names[k]);
        }
    }
}

/// An element of two joined sequences is an element of one of them.
proof fn lemma_concat_contains(a: Seq<Seq<char>>, b: Seq<Seq<char>>)
    ensures
        forall|x: Seq<char>| #[trigger] (a + b).contains(x) <==> a.contains(x) || b.contains(x),
{
    assert forall|x: Seq<char>| #[trigger] (a + b).contains(x) <==> a.contains(x) || b.contains(x) by {
        if (a + b).contains(x) {
            let k = choose|k: int| 0 <= k < (a + b).len() && (a + b)[k] == x;
            if k >= a.len() {
                assert(b[k - a.len()] == x);
            }
        }
        if a.contains(x) {
            let k = choose|k: int| 0 <= k < a.len() && a[k] == x;
            assert((a + b)[k] == x);
        }
        if b.contains(x) {
            let k = choose|k: int| 0 <= k < b.len() && b[k] == x;
            assert((a + b)[a.len() + k] == x);
        }
    }
}

} // verus!
