use wami::rank::{rank_order, display_pairs};
use wami::score::SCALE;
use wami::template::Template;
use wami::util::cut_of_string;

// An entry whose only non-trivial field is its identifier, scored against
// the query identifier "aaaaaaaa".
fn entry(id: &str) -> Template {
    Template::new(
        id.to_string(),
        "aaaaaaaa".to_string(),
        "".to_string(),
        "".to_string(),
        vec![],
        vec![],
        "".to_string(),
        "".to_string(),
        vec![],
        vec![],
        vec![],
    )
}

// Five entries with distinct relevance values, limit three: the selection is
// always the three highest, descending display numbers them [3, 2, 1] from
// the weakest selected to the best, ascending display [1, 2, 3] from the
// best down.
#[test]
fn ranking_selects_top_three_in_both_display_orders() {
    // Catalog order deliberately mixed; the identifier controls the score.
    let catalog = vec![
        entry("zzzzzzzz"),  // rank 5
        entry("aaaaaaaa"),  // rank 1 (exact match)
        entry("aaaaabbb"),  // rank 3
        entry("aaaaaaab"),  // rank 2
        entry("aabbbbbb"),  // rank 4
    ];
    // All five relevance values are distinct.
    let mut ds: Vec<u64> = catalog.iter().map(|t| t.distance()).collect();
    ds.sort();
    ds.dedup();
    assert_eq!(ds.len(), 5);

    let order = rank_order(&catalog);
    assert_eq!(order, vec![1, 3, 2, 4, 0]);

    let desc = display_pairs(&order, 3, true);
    assert_eq!(desc, vec![(3, 2), (2, 3), (1, 1)]);

    let asc = display_pairs(&order, 3, false);
    assert_eq!(asc, vec![(1, 1), (2, 3), (3, 2)]);

    // The same three entries are selected regardless of display order.
    let selected_desc: Vec<usize> = {
        let mut v: Vec<usize> = desc.iter().map(|p| p.1).collect();
        v.sort();
        v
    };
    let selected_asc: Vec<usize> = {
        let mut v: Vec<usize> = asc.iter().map(|p| p.1).collect();
        v.sort();
        v
    };
    assert_eq!(selected_desc, selected_asc);
}

// Two entries with equal relevance keep their catalog insertion order.
#[test]
fn ranking_is_stable_for_equal_relevance() {
    let catalog = vec![
        entry("aaaaaaaa"),  // full match, first
        entry("zzzzzzzz"),  // unrelated
        entry("aaaaaaaa"),  // full match again, later in the catalog
    ];
    assert_eq!(catalog[0].distance(), catalog[2].distance());
    assert!(catalog[0].distance() > catalog[1].distance());

    let order = rank_order(&catalog);
    assert_eq!(order, vec![0, 2, 1]);
}

// A limit beyond the catalog size selects everything.
#[test]
fn ranking_limit_beyond_len_selects_all() {
    let catalog = vec![entry("aaaaaaaa"), entry("zzzzzzzz")];
    let order = rank_order(&catalog);
    let pairs = display_pairs(&order, 10, false);
    assert_eq!(pairs, vec![(1, 0), (2, 1)]);
}

// An exact identifier match with otherwise empty fields scores a full
// relevance of one.
#[test]
fn exact_match_scores_one() {
    assert_eq!(entry("aaaaaaaa").distance(), SCALE);
}

#[test]
fn cut_of_string_truncates_to_character_count() {
    assert_eq!(cut_of_string("hello", 10), "hello");
    assert_eq!(cut_of_string("hello", 5), "hello");
    assert_eq!(cut_of_string("hello", 3), "hel");
    assert_eq!(cut_of_string("", 3), "");
}
