use wami::score::SCALE;
use wami::tokens::token_similarity;
use wami::edit::edit_similarity;
use wami::search::Search;
use wami::similarity::{fused_similarity, fused_list_similarity};
use wami::template::Template;

// A string that yields at least one token is fully token-similar to itself.
#[test]
fn token_similarity_self_is_one() {
    assert_eq!(token_similarity("wami tool", "wami tool"), SCALE);
    assert_eq!(token_similarity("a", "a"), SCALE);
    assert_eq!(token_similarity("net_scan x9", "net_scan x9"), SCALE);
}

// Token-set similarity is the Jaccard index: {a,b} vs {b,c} overlaps in one
// of three distinct tokens.
#[test]
fn token_similarity_exact_third() {
    assert_eq!(token_similarity("a b", "b c"), SCALE / 3);
}

// Two non-empty strings without any word character have empty token sets;
// the undefined division is defined as zero.
#[test]
fn token_similarity_punctuation_only_is_zero() {
    assert_eq!(token_similarity("!!!", "???"), 0);
}

// Tokenization is case-sensitive: no case folding before comparing tokens.
#[test]
fn token_similarity_case_sensitive() {
    assert_eq!(token_similarity("Ab", "ab"), 0);
}

// The empty-string special cases of edit similarity.
#[test]
fn edit_similarity_empty_cases() {
    assert_eq!(edit_similarity("", ""), SCALE);
    assert_eq!(edit_similarity("x", ""), 0);
    assert_eq!(edit_similarity("", "x"), 0);
}

// One edit on two characters: similarity one half, exactly.
#[test]
fn edit_similarity_exact_half() {
    assert_eq!(edit_similarity("ab", "b"), SCALE / 2);
}

// Edit similarity lowercases both sides before measuring the distance.
#[test]
fn edit_similarity_case_insensitive() {
    assert_eq!(edit_similarity("ABC", "abc"), SCALE);
}

// Bigram similarity of a string with itself is one for two or more
// characters, but zero for a single character: a one-character string has no
// bigrams, even though two empty strings count as fully similar.
#[test]
fn bigram_similarity_identity_and_single_char() {
    assert_eq!(Search::cosine_similarity("abcd", "abcd"), SCALE);
    assert_eq!(Search::cosine_similarity("a", "a"), 0);
}

// An irrational cosine value, to six decimal places: "ab" against "abab" has
// dot product 2, norms 1 and sqrt(5).
#[test]
fn bigram_similarity_irrational_value() {
    let sim = Search::cosine_similarity("ab", "abab") as f64 / SCALE as f64;
    let expected = 2.0 / 5.0_f64.sqrt();
    assert!((sim - expected).abs() < 2e-6);
}

// The fused blend weighs token similarity at seventy percent and edit
// similarity at thirty: both parts are exactly one third here.
#[test]
fn fused_similarity_exact_third() {
    assert_eq!(token_similarity("x y", "y z"), SCALE / 3);
    assert_eq!(edit_similarity("x y", "y z"), SCALE / 3);
    assert_eq!(fused_similarity("x y", "y z"), (7 * (SCALE / 3) + 3 * (SCALE / 3)) / 10);
}

// The empty-list special cases of the all-pairs list similarity.
#[test]
fn fused_list_similarity_empty_cases() {
    let empty: Vec<String> = vec![];
    let one = vec!["x".to_string()];
    assert_eq!(fused_list_similarity(&empty, &empty), SCALE);
    assert_eq!(fused_list_similarity(&one, &empty), 0);
    assert_eq!(fused_list_similarity(&empty, &one), 0);
}

// The all-pairs average is invariant under permuting either input list.
#[test]
fn fused_list_similarity_permutation_invariant() {
    let values = vec!["aaaa".to_string(), "aaab".to_string(), "aabc".to_string()];
    let values_perm = vec!["aabc".to_string(), "aaaa".to_string(), "aaab".to_string()];
    let queries = vec!["abcd".to_string(), "aaaa".to_string()];
    let queries_perm = vec!["aaaa".to_string(), "abcd".to_string()];

    let base = fused_list_similarity(&values, &queries);
    assert_eq!(fused_list_similarity(&values_perm, &queries), base);
    assert_eq!(fused_list_similarity(&values, &queries_perm), base);
    assert_eq!(fused_list_similarity(&values_perm, &queries_perm), base);
}

struct Lcg(u64);

impl Lcg {
    fn next(&mut self) -> u64 {
        self.0 = self
            .0
            .wrapping_mul(6364136223846793005)
            .wrapping_add(1442695040888963407);
        self.0 >> 33
    }

    // A printable ASCII string of 2 to 9 characters.
    fn ascii_string(&mut self) -> String {
        let len = 2 + (self.next() % 8) as usize;
        let mut s = String::new();
        for _ in 0..len {
            let c = (0x20 + (self.next() % 0x5f) as u8) as char;
            s.push(c);
        }
        s
    }

    fn ascii_list(&mut self) -> Vec<String> {
        let len = 1 + (self.next() % 3) as usize;
        (0..len).map(|_| self.ascii_string()).collect()
    }
}

// Relevance stays inside [0, 1] for arbitrary ASCII field values.
#[test]
fn relevance_in_unit_interval_for_random_ascii() {
    let mut rng = Lcg(0x5eed);
    for _ in 0..50 {
        let t = Template::new(
            rng.ascii_string(),
            rng.ascii_string(),
            rng.ascii_string(),
            rng.ascii_string(),
            rng.ascii_list(),
            rng.ascii_list(),
            rng.ascii_string(),
            rng.ascii_string(),
            rng.ascii_list(),
            rng.ascii_list(),
            vec![],
        );
        assert!(t.distance() <= SCALE);
    }
}

// End to end: an entry matching the query on identifier and tags ranks
// strictly above an unrelated entry.
#[test]
fn relevance_ranks_matching_entry_above_unrelated() {
    let query_id = "nmap".to_string();
    let query_tags = vec!["scanner".to_string()];

    let nmap = Template::new(
        "nmap".to_string(),
        query_id.clone(),
        "Nmap".to_string(),
        "".to_string(),
        vec!["scanner".to_string(), "network".to_string()],
        query_tags.clone(),
        "network mapper".to_string(),
        "".to_string(),
        vec!["https://nmap.org".to_string()],
        vec![],
        vec![],
    );
    let zzz = Template::new(
        "zzz".to_string(),
        query_id.clone(),
        "Zzz".to_string(),
        "".to_string(),
        vec!["unrelated".to_string()],
        query_tags.clone(),
        "completely different".to_string(),
        "".to_string(),
        vec![],
        vec![],
        vec![],
    );

    assert!(nmap.distance() > zzz.distance());
}

// Normalization is idempotent: normalizing an already-normalized value is a
// no-op.
#[test]
fn normalization_idempotent() {
    let raw = "Convert-ME)into*Lowercase! 42".to_string();
    let once = Template::convert_to_lowercase_alphanumeric_with_hyphens(&raw);
    let twice = Template::convert_to_lowercase_alphanumeric_with_hyphens(&once);
    assert_eq!(once, "convert-meintolowercase 42");
    assert_eq!(once, twice);
}
