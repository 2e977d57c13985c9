//! Text normalization and word shingles, for comparing listings with
//! each other and with known scam patterns.

use vstd::prelude::*;

use crate::hashing::{contains_text, lemma_text_view_push, text_view};

verus! {

/// The lowercase form of `text`, as Unicode defines it.
pub uninterp spec fn spec_to_lowercase(text: Seq<char>) -> Seq<char>;

/// Whether `c` is alphabetic or numeric, as Unicode defines it.
pub uninterp spec fn spec_is_alphanumeric(c: char) -> bool;

/// Whether `c` has the Unicode `White_Space` property.
pub uninterp spec fn spec_is_whitespace(c: char) -> bool;

/// Lowercases text with `str::to_lowercase`.
///
/// Trusted: the result is `spec_to_lowercase(text)`, a function of the
/// text alone (the Unicode tables of the standard library).
#[verifier::external_body]
pub(crate) fn to_lowercase(text: &str) -> (lower: String)
    ensures
        lower@ == spec_to_lowercase(text@),
{
    text.to_lowercase()
}

/// `char::is_alphanumeric`.
///
/// Trusted: the answer is `spec_is_alphanumeric(c)`.
#[verifier::external_body]
fn is_alphanumeric(c: char) -> (yes: bool)
    ensures
        yes == spec_is_alphanumeric(c),
{
    c.is_alphanumeric()
}

/// `char::is_whitespace`.
///
/// Trusted: the answer is `spec_is_whitespace(c)`, and the space character
/// is whitespace (as the standard library documents).
#[verifier::external_body]
fn is_whitespace(c: char) -> (yes: bool)
    ensures
        yes == spec_is_whitespace(c),
        c == ' ' ==> yes,
{
    c.is_whitespace()
}

/// Collects characters into a `String` (`FromIterator<char>`).
///
/// Trusted: the string holds exactly those characters, in order.
#[verifier::external_body]
fn string_from_chars(chars: &Vec<char>) -> (text: String)
    ensures
        text@ == chars@,
{
    chars.iter().collect()
}

/// `needle` occurs in `haystack` as a run of consecutive characters.
pub open spec fn spec_contains(haystack: Seq<char>, needle: Seq<char>) -> bool {
    exists|i: int|
        0 <= i <= haystack.len() - needle.len() && #[trigger] haystack.subrange(i, i + needle.len())
            == needle
}

/// `str::contains` with a string pattern.
///
/// Trusted: the answer is whether `needle` occurs in `haystack`, which is
/// what `str::contains` documents for a `&str` pattern.
#[verifier::external_body]
pub(crate) fn str_contains(haystack: &str, needle: &str) -> (found: bool)
    ensures
        found == spec_contains(haystack@, needle@),
{
    haystack.contains(needle)
}

/// The characters of `text`, in order.
fn chars_of(text: &str) -> (chars: Vec<char>)
    ensures
        chars@ == text@,
{
    let n = text.unicode_len();
    let mut chars: Vec<char> = Vec::new();
    for i in 0..n
        invariant
            n == text@.len(),
            chars@ == text@.take(i as int),
    {
        chars.push(text.get_char(i));
        assert(chars@ =~= text@.take(i + 1));
    }
    assert(text@.take(n as int) == text@);
    chars
}

/// Three fields of a listing joined with single spaces, the text that the
/// duplicate and red-flag checks read.
pub fn join_fields(first: &str, second: &str, third: &str) -> (joined: String)
    ensures
        joined@ == first@ + seq![' '] + second@ + seq![' '] + third@,
{
    let mut chars = chars_of(first);
    chars.push(' ');
    let mut middle = chars_of(second);
    chars.append(&mut middle);
    chars.push(' ');
    let mut last = chars_of(third);
    chars.append(&mut last);
    assert(chars@ =~= first@ + seq![' '] + second@ + seq![' '] + third@);
    string_from_chars(&chars)
}

/// Characters kept by normalization: letters, digits and whitespace.
pub open spec fn keep_char(c: char) -> bool {
    spec_is_alphanumeric(c) || spec_is_whitespace(c)
}

/// `chars` without the characters normalization drops.
pub open spec fn kept_chars(chars: Seq<char>) -> Seq<char>
    decreases chars.len(),
{
    if chars.len() == 0 {
        chars
    } else if keep_char(chars.last()) {
        kept_chars(chars.drop_last()).push(chars.last())
    } else {
        kept_chars(chars.drop_last())
    }
}

/// Scanning `chars` for words: the words finished so far and the word in progress.
pub open spec fn scan_words(chars: Seq<char>) -> (Seq<Seq<char>>, Seq<char>)
    decreases chars.len(),
{
    if chars.len() == 0 {
        (seq![], seq![])
    } else {
        let prev = scan_words(chars.drop_last());
        let c = chars.last();
        if spec_is_whitespace(c) {
            if prev.1.len() > 0 {
                (prev.0.push(prev.1), seq![])
            } else {
                prev
            }
        } else {
            (prev.0, prev.1.push(c))
        }
    }
}

/// The words of `chars`: its maximal runs of non-whitespace characters,
/// in order (what `str::split_whitespace` yields).
pub open spec fn spec_words(chars: Seq<char>) -> Seq<Seq<char>> {
    let r = scan_words(chars);
    if r.1.len() > 0 {
        r.0.push(r.1)
    } else {
        r.0
    }
}

/// `words` joined with single spaces.
pub open spec fn join_words(words: Seq<Seq<char>>) -> Seq<char>
    decreases words.len(),
{
    if words.len() == 0 {
        seq![]
    } else if words.len() == 1 {
        words[0]
    } else {
        join_words(words.drop_last()) + seq![' '] + words.last()
    }
}

/// The words as plain character sequences.
pub open spec fn words_view(words: Seq<Vec<char>>) -> Seq<Seq<char>> {
    words.map_values(|w: Vec<char>| w@)
}

/// Splits characters into words at whitespace.
fn split_words(chars: &Vec<char>) -> (words: Vec<Vec<char>>)
    ensures
        words_view(words@) == spec_words(chars@),
{
    let mut words: Vec<Vec<char>> = Vec::new();
    let mut current: Vec<char> = Vec::new();
    for i in 0..chars.len()
        invariant
            (words_view(words@), current@) == scan_words(chars@.take(i as int)),
    {
        let c = chars[i];
        assert(chars@.take(i + 1).drop_last() == chars@.take(i as int));
        assert(chars@.take(i + 1).last() == c);
        if is_whitespace(c) {
            if current.len() > 0 {
                let ghost prev = words@;
                let done = current;
                words.push(done);
                assert(words_view(words@) =~= words_view(prev).push(done@));
                current = Vec::new();
                assert(current@ =~= Seq::<char>::empty());
            }
        } else {
            current.push(c);
        }
    }
    assert(chars@.take(chars@.len() as int) == chars@);
    if current.len() > 0 {
        let ghost prev = words@;
        let done = current;
        words.push(done);
        assert(words_view(words@) =~= words_view(prev).push(done@));
    }
    words
}

/// The words from `start` to `end` joined with single spaces.
fn join_range(words: &Vec<Vec<char>>, start: usize, end: usize) -> (joined: Vec<char>)
    requires
        start <= end <= words@.len(),
    ensures
        joined@ == join_words(words_view(words@).subrange(start as int, end as int)),
{
    let ghost wv = words_view(words@);
    let mut out: Vec<char> = Vec::new();
    let mut k = start;
    while k < end
        invariant
            start <= k <= end <= words@.len(),
            wv == words_view(words@),
            out@ == join_words(wv.subrange(start as int, k as int)),
        decreases end - k,
    {
        let ghost before = out@;
        if k > start {
            out.push(' ');
        }
        let word = &words[k];
        assert(wv[k as int] == word@);
        for j in 0..word.len()
            invariant
                out@ == (if k > start {
                    before + seq![' ']
                } else {
                    before
                }) + word@.take(j as int),
        {
            out.push(word[j]);
            assert(word@.take(j + 1) == word@.take(j as int).push(word@[j as int]));
        }
        assert(word@.take(word@.len() as int) == word@);
        let ghost next = wv.subrange(start as int, k + 1);
        assert(next.drop_last() == wv.subrange(start as int, k as int));
        assert(next.last() == word@);
        if k > start {
            assert(out@ == join_words(next));
        } else {
            assert(next.len() == 1);
            assert(out@ =~= join_words(next));
        }
        k = k + 1;
    }
    out
}

/// The normalized form of text that is already lowercase: everything but
/// letters, digits and whitespace dropped, and words separated by single
/// spaces.
pub open spec fn spec_normalize_lowercase(lower: Seq<char>) -> Seq<char> {
    join_words(spec_words(kept_chars(lower)))
}

/// The normalized form of `text`: lowercased, with everything but
/// letters, digits and whitespace dropped, and words separated by single
/// spaces.
pub open spec fn spec_normalize_text(text: Seq<char>) -> Seq<char> {
    spec_normalize_lowercase(spec_to_lowercase(text))
}

/// Normalizes text that is already lowercase: letters, digits and
/// whitespace only, and single spaces between words.
pub fn normalize_lowercase(lower: &str) -> (normalized: String)
    ensures
        normalized@ == spec_normalize_lowercase(lower@),
{
    let chars = chars_of(lower);
    let mut kept: Vec<char> = Vec::new();
    for i in 0..chars.len()
        invariant
            kept@ == kept_chars(chars@.take(i as int)),
    {
        let c = chars[i];
        assert(chars@.take(i + 1).drop_last() == chars@.take(i as int));
        assert(chars@.take(i + 1).last() == c);
        if is_alphanumeric(c) || is_whitespace(c) {
            kept.push(c);
        }
    }
    assert(chars@.take(chars@.len() as int) == chars@);
    let words = split_words(&kept);
    let joined = join_range(&words, 0, words.len());
    assert(words_view(words@).subrange(0, words@.len() as int) == words_view(words@));
    string_from_chars(&joined)
}

/// Normalizes text for comparison: lowercase, letters, digits and
/// whitespace only, and single spaces between words.
pub fn normalize_text(text: &str) -> (normalized: String)
    ensures
        normalized@ == spec_normalize_text(text@),
{
    let lower = to_lowercase(text);
    normalize_lowercase(lower.as_str())
}

/// The word windows of `words`, `size` words each, joined with spaces.
pub open spec fn word_windows(words: Seq<Seq<char>>, size: nat) -> Seq<Seq<char>> {
    Seq::new(
        (words.len() - size + 1) as nat,
        |i: int| join_words(words.subrange(i, i + size)),
    )
}

/// The word `size`-shingles of `text`: every run of `size` consecutive
/// words joined with single spaces, or the whole text's words joined when
/// it has no more than `size` words.
pub open spec fn spec_shingles(text: Seq<char>, size: nat) -> Set<Seq<char>> {
    let words = spec_words(text);
    if words.len() <= size {
        set![join_words(words)]
    } else {
        word_windows(words, size).to_set()
    }
}

/// The distinct word shingles of `text` (see [`spec_shingles`]), each once.
pub fn shingles(text: &str, size: usize) -> (found: Vec<String>)
    requires
        size > 0 || spec_words(text@).len() == 0,
    ensures
        text_view(found@).no_duplicates(),
        text_view(found@).to_set() == spec_shingles(text@, size as nat),
{
    let chars = chars_of(text);
    let words = split_words(&chars);
    let ghost wv = words_view(words@);
    let n = words.len();
    let mut out: Vec<String> = Vec::new();
    if n <= size {
        let joined = join_range(&words, 0, n);
        let whole = string_from_chars(&joined);
        out.push(whole);
        assert(wv.subrange(0, n as int) == wv);
        assert(text_view(out@) =~= seq![whole@]);
        proof {
            let e = Seq::<Seq<char>>::empty();
            e.lemma_push_to_set_commute(whole@);
            assert(e.push(whole@) == seq![whole@]);
            assert(e.to_set() =~= Set::<Seq<char>>::empty());
            assert(seq![whole@].to_set() =~= set![whole@]);
        }
        return out;
    }
    let count = n - size + 1;
    let ghost all = word_windows(wv, size as nat);
    for i in 0..count
        invariant
            n == words@.len(),
            wv == words_view(words@),
            all == word_windows(wv, size as nat),
            size < n,
            count == n - size + 1,
            count == all.len(),
            text_view(out@).no_duplicates(),
            text_view(out@).to_set() == all.take(i as int).to_set(),
    {
        let joined = join_range(&words, i, i + size);
        let w = string_from_chars(&joined);
        assert(w@ == all[i as int]);
        let ghost before = out@;
        assert(all.take(i + 1) == all.take(i as int).push(w@));
        proof {
            all.take(i as int).lemma_push_to_set_commute(w@);
        }
        if !contains_text(&out, &w) {
            out.push(w);
            proof {
                lemma_text_view_push(before, w);
                text_view(before).lemma_push_to_set_commute(w@);
                assert forall|p: int, q: int|
                    0 <= p < q < text_view(out@).len() implies text_view(out@)[p] != text_view(out@)[q] by {
                    if q == text_view(before).len() {
                        assert(text_view(before).contains(text_view(before)[p]));
                    }
                }
            }
        } else {
            assert(text_view(out@).to_set().contains(w@));
            assert(text_view(out@).to_set().insert(w@) =~= text_view(out@).to_set());
        }
    }
    assert(all.take(count as int) == all);
    out
}

/// The sizes of the intersection and the union of the word shingle sets of
/// `a` and `b`: Jaccard similarity is the first over the second.
pub fn jaccard_counts(a: &str, b: &str, shingle_size: usize) -> (counts: (u128, u128))
    requires
        shingle_size > 0 || (spec_words(a@).len() == 0 && spec_words(b@).len() == 0),
    ensures
        counts.0 == spec_shingles(a@, shingle_size as nat).intersect(spec_shingles(b@, shingle_size as nat)).len(),
        counts.1 == spec_shingles(a@, shingle_size as nat).union(spec_shingles(b@, shingle_size as nat)).len(),
        counts.1 <= 2 * usize::MAX,
{
    let sa = shingles(a, shingle_size);
    let sb = shingles(b, shingle_size);
    let ghost av = text_view(sa@);
    let ghost bset = text_view(sb@).to_set();
    let mut shared: usize = 0;
    assert(av.take(0).to_set() =~= Set::<Seq<char>>::empty());
    assert(Set::<Seq<char>>::empty().intersect(bset) =~= Set::<Seq<char>>::empty());
    for i in 0..sa.len()
        invariant
            av == text_view(sa@),
            av.no_duplicates(),
            bset == text_view(sb@).to_set(),
            shared <= i,
            shared == av.take(i as int).to_set().intersect(bset).len(),
    {
        let ghost before = av.take(i as int).to_set();
        assert(av.take(i + 1) == av.take(i as int).push(av[i as int]));
        proof {
            av.take(i as int).lemma_push_to_set_commute(av[i as int]);
            vstd::seq_lib::seq_to_set_is_finite(av.take(i as int));
            assert(!av.take(i as int).contains(av[i as int]));
            assert(!before.contains(av[i as int]));
        }
        assert(sa@[i as int]@ == av[i as int]);
        if contains_text(&sb, &sa[i]) {
            assert(before.insert(av[i as int]).intersect(bset) =~= before.intersect(bset).insert(av[i as int]));
            assert(!before.intersect(bset).contains(av[i as int]));
            shared = shared + 1;
        } else {
            assert(before.insert(av[i as int]).intersect(bset) =~= before.intersect(bset));
        }
    }
    assert(av.take(sa@.len() as int) == av);
    proof {
        av.unique_seq_to_set();
        text_view(sb@).unique_seq_to_set();
        vstd::seq_lib::seq_to_set_is_finite(av);
        vstd::seq_lib::seq_to_set_is_finite(text_view(sb@));
        vstd::set_lib::lemma_set_intersect_union_lens(av.to_set(), bset);
    }
    let union = (sa.len() - shared) as u128 + sb.len() as u128;
    (shared as u128, union)
}

/// The Jaccard similarity of `a` and `b` over word shingles, as the pair
/// (size of the intersection, size of the union) of their shingle sets.
pub open spec fn spec_jaccard_counts(a: Seq<char>, b: Seq<char>, size: nat) -> (int, int) {
    (
        spec_shingles(a, size).intersect(spec_shingles(b, size)).len() as int,
        spec_shingles(a, size).union(spec_shingles(b, size)).len() as int,
    )
}

/// Every text has at least one shingle, and finitely many.
pub proof fn lemma_shingles_nonempty(text: Seq<char>, size: nat)
    ensures
        spec_shingles(text, size).finite(),
        spec_shingles(text, size).len() > 0,
{
    let words = spec_words(text);
    if words.len() <= size {
        assert(set![join_words(words)].len() == 1) by {
            assert(set![join_words(words)] =~= Set::<Seq<char>>::empty().insert(join_words(words)));
        }
    } else {
        let w = word_windows(words, size);
        vstd::seq_lib::seq_to_set_is_finite(w);
        assert(w.to_set().contains(w[0]));
        vstd::set_lib::lemma_set_empty_equivalency_len(w.to_set());
    }
}

/// Jaccard similarity is symmetric: comparing `b` with `a` gives the same
/// intersection and union as comparing `a` with `b`.
pub proof fn lemma_jaccard_symmetric(a: Seq<char>, b: Seq<char>, size: nat)
    ensures
        spec_jaccard_counts(a, b, size) == spec_jaccard_counts(b, a, size),
{
    let sa = spec_shingles(a, size);
    let sb = spec_shingles(b, size);
    assert(sa.intersect(sb) =~= sb.intersect(sa));
    assert(sa.union(sb) =~= sb.union(sa));
}

/// Jaccard similarity lies between 0 and 1: the union is never empty and
/// the intersection is never larger than it.
pub proof fn lemma_jaccard_bounded(a: Seq<char>, b: Seq<char>, size: nat)
    ensures
        0 <= spec_jaccard_counts(a, b, size).0 <= spec_jaccard_counts(a, b, size).1,
        spec_jaccard_counts(a, b, size).1 > 0,
{
    let sa = spec_shingles(a, size);
    let sb = spec_shingles(b, size);
    lemma_shingles_nonempty(a, size);
    lemma_shingles_nonempty(b, size);
    vstd::set_lib::lemma_len_union_ind(sa, sb);
    assert(sa.intersect(sb).subset_of(sa.union(sb)));
    vstd::set_lib::lemma_len_subset(sa.intersect(sb), sa.union(sb));
}

/// A text is identical to itself: its similarity with itself is exactly 1
/// (intersection and union coincide, and are not empty).
pub proof fn lemma_jaccard_identical(text: Seq<char>, size: nat)
    ensures
        spec_jaccard_counts(text, text, size).0 == spec_jaccard_counts(text, text, size).1,
        spec_jaccard_counts(text, text, size).1 > 0,
{
    let s = spec_shingles(text, size);
    lemma_shingles_nonempty(text, size);
    assert(s.intersect(s) =~= s);
    assert(s.union(s) =~= s);
}

} // verus!
