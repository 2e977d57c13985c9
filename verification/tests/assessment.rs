use gaskiya::assessment::{
    assess_trust, listing_match_text, select_duplicate, signature_validity, version_signature_valid, DuplicateCandidate,
    DuplicateFinding, DuplicateKind,
};
use gaskiya::models::{ListingVersionRow, Timestamp};
use gaskiya::signature::{generate_keypair, sign_hex};
use gaskiya::trust::TrustStatus;

const HOUR: i128 = 3_600_000_000_000;

fn row(version_number: i32, url: &str, contact: &str, created_at: Timestamp) -> ListingVersionRow {
    ListingVersionRow {
        id: version_number as u128,
        listing_id: 9,
        version_number,
        title: "National Youth Scholarship".to_string(),
        description: "Tuition support for students".to_string(),
        eligibility: "Ages 18 to 25".to_string(),
        deadline: 1_796_083_200_000_000_000,
        application_url: url.to_string(),
        contact: contact.to_string(),
        content_hash: format!("hash-{version_number}"),
        prev_version_hash: None,
        author_type: "user".to_string(),
        author_id: 5,
        signature: None,
        shard_id: Some(0),
        created_at,
    }
}

fn signed_by_institution(mut v: ListingVersionRow, private_key: &str) -> ListingVersionRow {
    v.author_type = "institution".to_string();
    v.signature = Some(sign_hex(private_key, v.content_hash.as_bytes()).unwrap());
    v
}

fn candidate(id: u128, title: &str, description: &str, eligibility: &str) -> DuplicateCandidate {
    DuplicateCandidate {
        listing_id: id,
        title: title.to_string(),
        description: description.to_string(),
        eligibility: eligibility.to_string(),
    }
}

#[test]
fn institution_signature_is_checked_against_the_registered_key() {
    let (sk, pk) = generate_keypair();
    let (_, other_pk) = generate_keypair();
    let v = signed_by_institution(row(1, "u", "c", 0), &sk);
    assert!(version_signature_valid(&v, &Some(pk.clone())));
    assert!(!version_signature_valid(&v, &Some(other_pk)));
    assert!(!version_signature_valid(&v, &None));
    let mut user = v.clone();
    user.author_type = "user".to_string();
    assert!(!version_signature_valid(&user, &Some(pk.clone())));
    let mut unsigned = v.clone();
    unsigned.signature = None;
    assert!(!version_signature_valid(&unsigned, &Some(pk)));
}

#[test]
fn validity_is_per_version() {
    let (sk, pk) = generate_keypair();
    let versions = vec![signed_by_institution(row(1, "u", "c", 0), &sk), row(2, "u", "c", HOUR)];
    assert_eq!(signature_validity(&versions, &[Some(pk.clone()), Some(pk)]), vec![true, false]);
}

#[test]
fn exact_duplicate_wins() {
    let found = select_duplicate(Some(42), "anything at all here", &[candidate(1, "anything", "at all", "here")]);
    assert_eq!(
        found,
        Some(DuplicateFinding {
            kind: DuplicateKind::ExactDuplicate,
            other_listing_id: 42,
            shared_shingles: 1,
            total_shingles: 1,
        })
    );
    assert_eq!(DuplicateKind::ExactDuplicate.as_str(), "exact_duplicate");
}

#[test]
fn near_duplicate_of_a_flagged_listing_is_found() {
    let mine = listing_match_text("Apply for the National Youth Scholarship", "before the deadline", "all students");
    let cands = vec![
        candidate(1, "Grant funding", "for women-led tech startups", "in Accra"),
        candidate(2, "apply for the national youth scholarship!", "Before the deadline.", "All students"),
    ];
    let found = select_duplicate(None, &mine, &cands).unwrap();
    assert_eq!(found.kind, DuplicateKind::NearDuplicateOfFlaggedListing);
    assert_eq!(found.other_listing_id, 2);
    assert_eq!(found.shared_shingles, found.total_shingles);
    assert_eq!(found.kind.as_str(), "near_duplicate_of_flagged_listing");
}

#[test]
fn the_most_similar_candidate_is_reported_and_ties_keep_the_first() {
    let mine = "w1 w2 w3 w4 w5 w6 w7 w8 w9 w10 w11 w12";
    // all 9 of its shingles are among the 10 of the listing: 9/10
    let close = candidate(10, "w1 w2 w3 w4 w5 w6 w7 w8 w9 w10 w11", "", "");
    // identical: 10/10
    let same = candidate(20, "w1 w2 w3 w4 w5 w6", "w7 w8 w9", "w10 w11 w12");
    let same_again = candidate(30, "w1 w2 w3", "w4 w5 w6 w7 w8 w9", "w10 w11 w12");
    let found = select_duplicate(None, mine, &[close.clone(), same, same_again]).unwrap();
    assert_eq!(found.other_listing_id, 20);
    assert_eq!((found.shared_shingles, found.total_shingles), (10, 10));
    let only_close = select_duplicate(None, mine, &[close]).unwrap();
    assert_eq!(only_close.other_listing_id, 10);
    assert_eq!((only_close.shared_shingles, only_close.total_shingles), (9, 10));
}

#[test]
fn nothing_below_the_threshold_is_reported() {
    let mine = "w1 w2 w3 w4 w5 w6";
    // 3 of 4 shingles shared: 0.75
    let cands = vec![candidate(1, "w1 w2 w3 w4 w5", "", ""), candidate(2, "x y z", "", "")];
    assert_eq!(select_duplicate(None, mine, &cands), None);
    assert_eq!(select_duplicate(None, mine, &[]), None);
}

#[test]
fn match_text_joins_and_normalizes() {
    assert_eq!(listing_match_text("A Grant!", "For  YOU", "now."), "a grant for you now");
}

#[test]
fn a_fresh_user_listing_is_unverified() {
    let versions = vec![row(1, "https://real.example/apply", "real@example.org", 0)];
    let a = assess_trust(&versions, &[None], None, 0, 0, false, None);
    assert_eq!(a.status, TrustStatus::Unverified);
    assert_eq!(a.score, 0);
    assert!(!a.signature_valid);
    assert_eq!(a.pivot_index, None);
    assert!(a.red_flags.is_empty());
}

#[test]
fn a_signed_listing_is_institutionally_verified() {
    let (sk, pk) = generate_keypair();
    let versions = vec![signed_by_institution(row(1, "u", "c", 0), &sk)];
    let a = assess_trust(&versions, &[Some(pk)], None, 1, 0, false, None);
    assert!(a.signature_valid);
    assert_eq!(a.status, TrustStatus::InstitutionallyVerified);
    assert_eq!(a.score, 50);
}

#[test]
fn a_pivot_after_signing_flags_the_listing() {
    let (sk, pk) = generate_keypair();
    let versions = vec![
        signed_by_institution(row(1, "https://real.example/apply", "real@example.org", 0), &sk),
        row(2, "https://phishing.example/apply", "real@example.org", HOUR),
    ];
    let a = assess_trust(&versions, &[Some(pk), None], None, 0, 0, false, Some(TrustStatus::InstitutionallyVerified));
    assert_eq!(a.pivot_index, Some(1));
    assert!(!a.signature_valid);
    assert_eq!(a.status, TrustStatus::Flagged);
    assert_eq!(a.score, -100);
}

#[test]
fn community_corroboration_and_fee_language() {
    let mut v = row(1, "u", "pay the processing fee to", 0);
    v.eligibility = "Act now".to_string();
    let a = assess_trust(&[v.clone()], &[None], Some(HOUR), 4, 1, false, None);
    assert_eq!(a.red_flags, vec!["requests_upfront_payment", "urgency_pressure_language"]);
    assert_eq!(a.status, TrustStatus::Flagged);
    assert_eq!(a.score, 30 - 15 - 60 - 10);
    let clean = row(1, "u", "info@example.org", 0);
    let b = assess_trust(&[clean], &[None], Some(HOUR), 4, 1, false, None);
    assert_eq!(b.status, TrustStatus::CommunityVerified);
    assert_eq!(b.score, 15);
}

#[test]
fn confirmed_scam_stays_confirmed() {
    let versions = vec![row(1, "u", "c", 0)];
    let a = assess_trust(&versions, &[None], None, 9, 0, false, Some(TrustStatus::ConfirmedScam));
    assert_eq!(a.status, TrustStatus::ConfirmedScam);
    assert_eq!(a.score, -100);
}

#[test]
fn duplicates_flag_and_cost_points() {
    let versions = vec![row(1, "u", "c", 0)];
    let a = assess_trust(&versions, &[None], None, 0, 0, true, None);
    assert_eq!(a.status, TrustStatus::Flagged);
    assert_eq!(a.score, -60);
}

#[test]
fn no_versions_means_no_signals() {
    let a = assess_trust(&[], &[], None, 0, 0, false, Some(TrustStatus::Flagged));
    assert_eq!(a.status, TrustStatus::Flagged);
    assert!(!a.signature_valid);
    assert!(a.red_flags.is_empty());
}
