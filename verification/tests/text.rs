use gaskiya::text::{jaccard_counts, join_fields, normalize_text, shingles};

#[test]
fn normalization_lowercases_and_drops_punctuation() {
    assert_eq!(normalize_text("  Apply NOW, before\tthe   deadline! "), "apply now before the deadline");
    assert_eq!(normalize_text(""), "");
    assert_eq!(normalize_text("!!!"), "");
}

#[test]
fn normalization_keeps_unicode_letters() {
    assert_eq!(normalize_text("Ünïversity — Grant"), "ünïversity grant");
}

#[test]
fn short_text_is_one_shingle() {
    let mut s = shingles("one two", 3);
    s.sort();
    assert_eq!(s, vec!["one two".to_string()]);
    assert_eq!(shingles("", 3), vec!["".to_string()]);
}

#[test]
fn shingles_are_distinct_word_windows() {
    let mut s = shingles("a b a b a", 2);
    s.sort();
    assert_eq!(s, vec!["a b".to_string(), "b a".to_string()]);
    let mut w = shingles("w1 w2 w3 w4", 3);
    w.sort();
    assert_eq!(w, vec!["w1 w2 w3".to_string(), "w2 w3 w4".to_string()]);
}

#[test]
fn jaccard_counts_are_symmetric() {
    let a = "apply for the national scholarship program today";
    let b = "apply for the regional scholarship program today";
    assert_eq!(jaccard_counts(a, b, 3), jaccard_counts(b, a, 3));
    assert_eq!(jaccard_counts(a, b, 3), (2, 8));
}

#[test]
fn identical_text_shares_every_shingle() {
    let a = "grant funding for women led tech startups";
    let (shared, total) = jaccard_counts(a, a, 3);
    assert_eq!(shared, total);
    assert!(total > 0);
    assert_eq!(jaccard_counts("", "", 3), (1, 1));
}

#[test]
fn join_fields_uses_single_spaces() {
    assert_eq!(join_fields("a", "b c", ""), "a b c ");
}

#[test]
fn lowercase_text_normalizes_without_case_folding() {
    assert_eq!(gaskiya::text::normalize_lowercase("apply, now!  please"), "apply now please");
    assert_eq!(gaskiya::text::normalize_lowercase("ABC d"), "ABC d");
}
