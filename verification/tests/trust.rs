use gaskiya::merkle_chain::{chain_links, verify_chain, ChainError};
use gaskiya::models::{AuthorType, ListingVersionRow, Timestamp};
use gaskiya::signature::{generate_keypair, sign_hex};
use gaskiya::text::{jaccard_counts, normalize_text};
use gaskiya::trust::{
    check_corroboration, check_submission_signature, compute_score, history_changes, CorroborationError, decide_status, detect_post_verification_pivot, diff_fields,
    structural_red_flags, SubmissionError, TrustStatus, COMMUNITY_VERIFIED_THRESHOLD, FLAGGED_REPORT_THRESHOLD,
    SHINGLE_SIZE,
};

const NANOS_PER_HOUR: i128 = 3_600_000_000_000;
// 2026-01-01T00:00:00Z
const JAN_1_2026: i128 = 1_767_225_600_000_000_000;
// 2026-12-01T00:00:00Z
const DEC_1_2026: i128 = 1_796_083_200_000_000_000;

fn t(hour: i128) -> Timestamp {
    JAN_1_2026 + hour * NANOS_PER_HOUR
}

fn version(version_number: i32, application_url: &str, contact: &str, title: &str, created_at: Timestamp) -> ListingVersionRow {
    ListingVersionRow {
        id: version_number as u128 * 1000 + 1,
        listing_id: 77,
        version_number,
        title: title.to_string(),
        description: "same description".to_string(),
        eligibility: "same eligibility".to_string(),
        deadline: DEC_1_2026,
        application_url: application_url.to_string(),
        contact: contact.to_string(),
        content_hash: format!("hash-{version_number}"),
        prev_version_hash: None,
        author_type: "user".to_string(),
        author_id: version_number as u128 * 1000 + 2,
        signature: None,
        shard_id: None,
        created_at,
    }
}

fn jaccard_similarity(a: &str, b: &str, shingle_size: usize) -> f64 {
    let (shared, total) = jaccard_counts(a, b, shingle_size);
    if total == 0 {
        0.0
    } else {
        shared as f64 / total as f64
    }
}

#[test]
fn flags_pivot_after_corroboration_when_only_sensitive_fields_change() {
    let versions = vec![
        version(1, "https://real.example/apply", "real@example.org", "Grant", t(0)),
        version(2, "https://phishing.example/apply", "fake@phishing.example", "Grant", t(2)),
    ];
    let sig_valid = vec![false, false];
    let first_corroboration_at = Some(t(1));
    assert_eq!(detect_post_verification_pivot(&versions, &sig_valid, first_corroboration_at), Some(1));
}

#[test]
fn does_not_flag_pivot_before_any_trust_established() {
    let versions = vec![
        version(1, "https://real.example/apply", "real@example.org", "Grant", t(0)),
        version(2, "https://phishing.example/apply", "fake@phishing.example", "Grant", t(2)),
    ];
    let sig_valid = vec![false, false];
    assert_eq!(detect_post_verification_pivot(&versions, &sig_valid, None), None);
}

#[test]
fn does_not_flag_full_content_rewrite_as_pivot() {
    let versions = vec![
        version(1, "https://real.example/apply", "real@example.org", "Grant", t(0)),
        version(2, "https://real.example/apply-v2", "new@example.org", "Updated Grant Name", t(2)),
    ];
    let sig_valid = vec![true, true];
    assert_eq!(detect_post_verification_pivot(&versions, &sig_valid, None), None);
}

#[test]
fn jaccard_identical_text_is_one() {
    let text = "apply for the national scholarship program today";
    assert_eq!(jaccard_similarity(text, text, 3), 1.0);
}

#[test]
fn jaccard_detects_near_duplicate_with_minor_edits() {
    let a = normalize_text("Apply for the National Youth Scholarship before the deadline");
    let b = normalize_text("apply for the national youth scholarship, before the deadline!");
    assert!(jaccard_similarity(&a, &b, 3) > 0.8);
}

#[test]
fn jaccard_unrelated_text_is_low() {
    let a = normalize_text("Scholarship for STEM students in Kano");
    let b = normalize_text("Grant funding for women-led tech startups in Accra");
    assert!(jaccard_similarity(&a, &b, 3) < 0.3);
}

#[test]
fn flags_upfront_fee_language() {
    let flags = structural_red_flags("Pay a small processing fee to release your funds immediately.");
    assert!(flags.contains(&"requests_upfront_payment"));
}

#[test]
fn does_not_flag_ordinary_deadline_language() {
    let flags = structural_red_flags("Applications close on December 1st. No fees required to apply.");
    assert!(!flags.contains(&"requests_upfront_payment"));
}

#[test]
fn pivot_after_an_institutional_signature_is_flagged() {
    let versions = vec![
        version(1, "https://real.example/apply", "real@example.org", "Grant", t(0)),
        version(2, "https://real.example/apply", "real@example.org", "Grant", t(1)),
        version(3, "https://phishing.example/apply", "real@example.org", "Grant", t(2)),
    ];
    assert_eq!(detect_post_verification_pivot(&versions, &[true, false, false], None), Some(2));
}

#[test]
fn signature_on_the_pivot_itself_does_not_count_as_earlier_trust() {
    let versions = vec![
        version(1, "https://real.example/apply", "real@example.org", "Grant", t(0)),
        version(2, "https://phishing.example/apply", "real@example.org", "Grant", t(2)),
    ];
    assert_eq!(detect_post_verification_pivot(&versions, &[false, true], None), None);
}

#[test]
fn corroboration_after_the_edit_does_not_count() {
    let versions = vec![
        version(1, "https://real.example/apply", "real@example.org", "Grant", t(0)),
        version(2, "https://phishing.example/apply", "fake@phishing.example", "Grant", t(2)),
    ];
    assert_eq!(detect_post_verification_pivot(&versions, &[false, false], Some(t(2))), None);
    assert_eq!(detect_post_verification_pivot(&versions, &[false, false], Some(t(3))), None);
}

#[test]
fn contact_change_alone_is_a_pivot_and_the_first_one_is_reported() {
    let versions = vec![
        version(1, "u1", "c1", "Grant", t(0)),
        version(2, "u1", "c2", "Grant", t(2)),
        version(3, "u2", "c2", "Grant", t(3)),
    ];
    assert_eq!(detect_post_verification_pivot(&versions, &[false, false, false], Some(t(1))), Some(1));
}

#[test]
fn single_version_never_pivots() {
    let versions = vec![version(1, "u1", "c1", "Grant", t(5))];
    assert_eq!(detect_post_verification_pivot(&versions, &[true], Some(t(0))), None);
    assert_eq!(detect_post_verification_pivot(&[], &[], Some(t(0))), None);
}

#[test]
fn urgency_language_is_flagged_after_fees() {
    let flags = structural_red_flags("ACT NOW: an Activation Fee applies");
    assert_eq!(flags, vec!["requests_upfront_payment", "urgency_pressure_language"]);
    let only_urgency = structural_red_flags("Last chance to apply!");
    assert_eq!(only_urgency, vec!["urgency_pressure_language"]);
    assert!(structural_red_flags("").is_empty());
}

#[test]
fn score_weights() {
    assert_eq!(compute_score(true, 2, 0, false, false, false, false, false), 60);
    assert_eq!(compute_score(false, 7, 1, false, false, false, true, false), 5);
    assert_eq!(compute_score(true, 3, 2, true, true, true, true, false), 40 + 30 - 30 - 100 - 60 - 60 - 10);
    assert_eq!(compute_score(true, 10, 0, false, false, false, false, true), -100);
    assert_eq!(compute_score(false, 0, 0, false, false, false, false, false), 0);
}

#[test]
fn status_lifecycle() {
    assert_eq!(decide_status(None, false, 0, false, false, false, 0), TrustStatus::Unverified);
    assert_eq!(
        decide_status(None, false, 0, false, false, false, COMMUNITY_VERIFIED_THRESHOLD),
        TrustStatus::CommunityVerified
    );
    assert_eq!(decide_status(None, false, 0, false, false, true, 0), TrustStatus::InstitutionallyVerified);
    assert_eq!(decide_status(None, true, 0, false, false, true, 5), TrustStatus::Flagged);
    assert_eq!(decide_status(None, false, FLAGGED_REPORT_THRESHOLD, false, false, true, 5), TrustStatus::Flagged);
    assert_eq!(decide_status(None, false, FLAGGED_REPORT_THRESHOLD - 1, false, false, false, 0), TrustStatus::Unverified);
    assert_eq!(decide_status(None, false, 0, true, false, false, 0), TrustStatus::Flagged);
    assert_eq!(decide_status(None, false, 0, false, true, false, 0), TrustStatus::Flagged);
    assert_eq!(
        decide_status(Some(TrustStatus::Flagged), false, 0, false, false, true, 9),
        TrustStatus::Flagged
    );
    assert_eq!(
        decide_status(Some(TrustStatus::ConfirmedScam), false, 0, false, false, true, 9),
        TrustStatus::ConfirmedScam
    );
    assert_eq!(
        decide_status(Some(TrustStatus::InstitutionallyVerified), false, 0, false, false, false, 0),
        TrustStatus::Unverified
    );
}

#[test]
fn status_names_round_trip() {
    for s in [
        TrustStatus::Unverified,
        TrustStatus::CommunityVerified,
        TrustStatus::InstitutionallyVerified,
        TrustStatus::Flagged,
        TrustStatus::ConfirmedScam,
    ] {
        assert_eq!(TrustStatus::from_name(s.as_str()), Some(s));
    }
    assert_eq!(TrustStatus::Flagged.as_str(), "flagged");
    assert_eq!(TrustStatus::from_name("verified"), None);
}

#[test]
fn diff_lists_changed_fields_in_order() {
    let a = version(1, "u1", "c1", "Grant", t(0));
    let mut b = version(2, "u2", "c1", "Grant v2", t(1));
    b.deadline = DEC_1_2026 + 1;
    assert_eq!(diff_fields(&a, &b), vec!["title", "deadline", "application_url"]);
    assert!(diff_fields(&a, &a).is_empty());
}

#[test]
fn user_submissions_need_no_signature() {
    assert_eq!(check_submission_signature(AuthorType::User, None, None, "hash"), Ok(()));
}

#[test]
fn user_submissions_must_not_carry_a_signature() {
    let (sk, pk) = generate_keypair();
    let sig = sign_hex(&sk, b"hash").unwrap();
    assert_eq!(
        check_submission_signature(AuthorType::User, Some(&sig), Some(&pk), "hash"),
        Err(SubmissionError::UnexpectedSignature)
    );
    assert_eq!(SubmissionError::UnexpectedSignature.message(), "user submissions must not carry a signature");
}

#[test]
fn institution_submission_checks() {
    let (sk, pk) = generate_keypair();
    let hash = "0123abcd";
    let sig = sign_hex(&sk, hash.as_bytes()).unwrap();
    assert_eq!(check_submission_signature(AuthorType::Institution, Some(&sig), Some(&pk), hash), Ok(()));
    assert_eq!(
        check_submission_signature(AuthorType::Institution, None, Some(&pk), hash),
        Err(SubmissionError::MissingSignature)
    );
    assert_eq!(
        check_submission_signature(AuthorType::Institution, Some(&sig), None, hash),
        Err(SubmissionError::UnknownInstitution)
    );
    assert_eq!(
        check_submission_signature(AuthorType::Institution, Some(&sig), Some(&pk), "other-hash"),
        Err(SubmissionError::SignatureMismatch)
    );
    assert_eq!(
        SubmissionError::SignatureMismatch.message(),
        "institution signature does not verify against content hash"
    );
}

#[test]
fn shingle_size_is_three_words() {
    assert_eq!(SHINGLE_SIZE, 3);
    let (shared, total) = jaccard_counts("a b c d", "b c d e", SHINGLE_SIZE);
    assert_eq!((shared, total), (1, 3));
}

#[test]
fn history_shows_what_each_version_changed() {
    let versions = vec![
        version(1, "u1", "c1", "Grant", t(0)),
        version(2, "u1", "c2", "Grant", t(1)),
        version(3, "u2", "c2", "Grant 2", t(2)),
    ];
    let changes = history_changes(&versions);
    assert_eq!(changes.len(), 3);
    assert!(changes[0].is_empty());
    assert_eq!(changes[1], vec!["contact"]);
    assert_eq!(changes[2], vec!["title", "application_url"]);
    assert!(history_changes(&[]).is_empty());
}

#[test]
fn stored_versions_are_checked_as_a_chain() {
    let mut v1 = version(1, "u1", "c1", "Grant", t(0));
    let mut v2 = version(2, "u1", "c2", "Grant", t(1));
    v1.content_hash = "h1".to_string();
    v2.content_hash = "h2".to_string();
    v2.prev_version_hash = Some("h1".to_string());
    let links = chain_links(&[v1.clone(), v2.clone()]);
    assert_eq!(links[1].prev_version_hash, Some("h1".to_string()));
    assert_eq!(verify_chain(&links), Ok(()));
    v2.prev_version_hash = Some("forged".to_string());
    assert_eq!(verify_chain(&chain_links(&[v1, v2])), Err(ChainError::BrokenLink { index: 1 }));
}

#[test]
fn lowercase_rules_do_not_fold_case_themselves() {
    assert_eq!(gaskiya::trust::lowercase_red_flags("pay to receive your award"), vec!["requests_upfront_payment"]);
    assert!(gaskiya::trust::lowercase_red_flags("PAY TO RECEIVE").is_empty());
    assert_eq!(structural_red_flags("PAY TO RECEIVE"), vec!["requests_upfront_payment"]);
}

#[test]
fn authors_cannot_corroborate_their_own_listing() {
    assert_eq!(check_corroboration(7, 8), Ok(()));
    assert_eq!(check_corroboration(7, 7), Err(CorroborationError::OwnListing));
    assert_eq!(CorroborationError::OwnListing.message(), "a listing's own author cannot corroborate it");
}

#[test]
fn reports_lower_and_corroborations_raise_the_score() {
    let base = compute_score(false, 1, 1, false, false, false, false, false);
    assert!(compute_score(false, 1, 2, false, false, false, false, false) < base);
    assert!(compute_score(false, 2, 1, false, false, false, false, false) >= base);
    assert_eq!(
        compute_score(false, 100, 1, false, false, false, false, false),
        compute_score(false, COMMUNITY_VERIFIED_THRESHOLD, 1, false, false, false, false, false)
    );
}

#[test]
fn a_pivot_shows_only_link_and_contact_changes() {
    let versions = vec![
        version(1, "https://real.example/apply", "real@example.org", "Grant", t(0)),
        version(2, "https://phishing.example/apply", "fake@phishing.example", "Grant", t(2)),
    ];
    assert_eq!(detect_post_verification_pivot(&versions, &[false, false], Some(t(1))), Some(1));
    assert_eq!(diff_fields(&versions[0], &versions[1]), vec!["application_url", "contact"]);
}

#[test]
fn an_edit_links_to_the_latest_version() {
    let mut latest = version(4, "u", "c", "Grant", t(0));
    latest.content_hash = "latest-hash".to_string();
    latest.shard_id = Some(3);
    let link = gaskiya::merkle_chain::next_version_link(&latest);
    assert_eq!(link.version_number, 5);
    assert_eq!(link.prev_version_hash, "latest-hash");
    assert_eq!(link.shard_id, Some(3));
}

#[test]
fn a_confirmed_scam_scores_minus_one_hundred_whatever_the_signals() {
    assert_eq!(compute_score(true, 3, 0, false, false, false, false, true), -100);
    assert_eq!(compute_score(false, 0, 9, true, true, true, true, true), -100);
    assert_eq!(
        decide_status(Some(TrustStatus::ConfirmedScam), true, 9, true, true, true, 9),
        TrustStatus::ConfirmedScam
    );
}
