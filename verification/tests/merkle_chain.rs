use gaskiya::hashing::sha256_hex;
use gaskiya::merkle_chain::{content_hash, matches_content, verify_chain, ChainError, VersionLink};

fn canonical(fields: &[(&str, serde_json::Value)]) -> String {
    let mut map = serde_json::Map::new();
    for (k, v) in fields {
        map.insert(k.to_string(), v.clone());
    }
    serde_json::to_string(&serde_json::Value::Object(map)).unwrap()
}

#[test]
fn same_content_same_hash_regardless_of_field_order() {
    let h1 = content_hash(&canonical(&[("b", serde_json::Value::from(2)), ("a", serde_json::Value::from(1))]));
    let h2 = content_hash(&canonical(&[("a", serde_json::Value::from(1)), ("b", serde_json::Value::from(2))]));
    assert_eq!(h1, h2);
}

#[test]
fn detects_pivot_via_content_hash_change() {
    let v1 = canonical(&[
        ("title", serde_json::Value::from("Scholarship")),
        ("application_url", serde_json::Value::from("https://real.edu/apply")),
    ]);
    let v2 = canonical(&[
        ("title", serde_json::Value::from("Scholarship")),
        ("application_url", serde_json::Value::from("https://phishing.example/apply")),
    ]);
    assert_ne!(content_hash(&v1), content_hash(&v2));
}

#[test]
fn verifies_unbroken_chain() {
    let h1 = sha256_hex(b"v1");
    let h2 = sha256_hex(b"v2");
    let versions = vec![
        VersionLink { content_hash: h1.clone(), prev_version_hash: None },
        VersionLink { content_hash: h2, prev_version_hash: Some(h1) },
    ];
    assert!(verify_chain(&versions).is_ok());
}

#[test]
fn rejects_broken_chain() {
    let versions = vec![
        VersionLink { content_hash: sha256_hex(b"v1"), prev_version_hash: None },
        VersionLink { content_hash: sha256_hex(b"v2"), prev_version_hash: Some(sha256_hex(b"tampered")) },
    ];
    assert_eq!(verify_chain(&versions), Err(ChainError::BrokenLink { index: 1 }));
}

#[test]
fn empty_history_is_a_valid_chain() {
    assert_eq!(verify_chain(&[]), Ok(()));
}

#[test]
fn first_version_must_not_link_back() {
    let versions = vec![VersionLink { content_hash: sha256_hex(b"v1"), prev_version_hash: Some(sha256_hex(b"v0")) }];
    assert_eq!(verify_chain(&versions), Err(ChainError::FirstVersionHasPrev));
}

#[test]
fn later_version_without_link_is_reported() {
    let versions = vec![
        VersionLink { content_hash: sha256_hex(b"v1"), prev_version_hash: None },
        VersionLink { content_hash: sha256_hex(b"v2"), prev_version_hash: Some(sha256_hex(b"v1")) },
        VersionLink { content_hash: sha256_hex(b"v3"), prev_version_hash: None },
    ];
    assert_eq!(verify_chain(&versions), Err(ChainError::MissingPrevHash(2)));
}

#[test]
fn first_defect_is_reported() {
    let versions = vec![
        VersionLink { content_hash: sha256_hex(b"v1"), prev_version_hash: None },
        VersionLink { content_hash: sha256_hex(b"v2"), prev_version_hash: Some(sha256_hex(b"x")) },
        VersionLink { content_hash: sha256_hex(b"v3"), prev_version_hash: None },
    ];
    assert_eq!(verify_chain(&versions), Err(ChainError::BrokenLink { index: 1 }));
}

#[test]
fn appending_a_linked_version_keeps_the_chain_valid() {
    let mut versions = vec![VersionLink { content_hash: sha256_hex(b"v1"), prev_version_hash: None }];
    for i in 2..6 {
        let prev = versions.last().unwrap().content_hash.clone();
        versions.push(VersionLink { content_hash: sha256_hex(format!("v{i}").as_bytes()), prev_version_hash: Some(prev) });
        assert_eq!(verify_chain(&versions), Ok(()));
    }
}

#[test]
fn content_hash_is_sha256_of_the_canonical_text() {
    let text = "{\"a\":1}";
    assert_eq!(content_hash(text), sha256_hex(text.as_bytes()));
    assert_eq!(content_hash(text).len(), 64);
}

#[test]
fn matches_content_compares_with_the_stored_hash() {
    let text = canonical(&[("title", serde_json::Value::from("Grant"))]);
    let stored = content_hash(&text);
    assert!(matches_content(&text, &stored));
    assert!(!matches_content(&text, &sha256_hex(b"something else")));
    let edited = canonical(&[("title", serde_json::Value::from("Grant!"))]);
    assert!(!matches_content(&edited, &stored));
}
