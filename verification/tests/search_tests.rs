use wami::search::Search;

const SCALE_F: f64 = 1_000_000.0;

fn sim(word: &str, query: &str) -> f64 {
    Search::cosine_similarity(word, query) as f64 / SCALE_F
}

fn sims(words: &Vec<String>, queries: &Vec<String>) -> f64 {
    Search::cosine_similarities(words, queries) as f64 / SCALE_F
}

#[test]
fn test_search_new_empty() {
    let search = Search::new_empty();

    assert_eq!(*search.id_get(), "");
    assert_eq!(search.title_get(), "");
    assert_eq!(*search.tags_get(), Vec::<String>::new());
    assert_eq!(*search.description_get(), "");
    assert_eq!(*search.reference_get(), Vec::<String>::new());
    assert_eq!(*search.min_stars_get(), 100);
    assert_eq!(*search.max_stars_get(), -1);
    assert_eq!(*search.github_fork_get(), false);
}

// Verifies both setting and getting functionalities of a Search value.
#[test]
fn test_search_new_set_get() {
    // Initialize a Search value with specific values for every field.
    let mut search = Search::new_empty();
    search.id_set(&"id1".to_string());
    search.title_set(&"title1".to_string());
    search.tags_set(&vec![String::from("tags1")]);
    search.description_set(&"description1".to_string());
    search.reference_set(&vec![String::from("references1")]);
    search.min_stars_set(100);
    search.max_stars_set(1000);
    search.github_fork_set(true);

    // Assert that the initial values of each field are set as expected.
    assert_eq!(*search.id_get(), "id1");
    assert_eq!(search.title_get(), "title1");
    assert_eq!(*search.tags_get(), vec![String::from("tags1")]);
    assert_eq!(*search.description_get(), "description1");
    assert_eq!(*search.reference_get(), vec![String::from("references1")]);
    assert_eq!(*search.min_stars_get(), 100);
    assert_eq!(*search.max_stars_get(), 1000);
    assert_eq!(*search.github_fork_get(), true);

    // Set new values to each field using the respective setter methods.
    search.id_set(&"id2".to_string());
    search.title_set(&"title2".to_string());
    search.tags_set(&vec![String::from("tags2")]);
    search.description_set(&"description2".to_string());
    search.reference_set(&vec![String::from("reference2")]);
    search.min_stars_set(200);
    search.max_stars_set(2000);
    search.github_fork_set(false);

    // Assert that the values of each field are updated to the new values.
    assert_eq!(*search.id_get(), "id2");
    assert_eq!(search.title_get(), "title2");
    assert_eq!(*search.tags_get(), vec![String::from("tags2")]);
    assert_eq!(*search.description_get(), "description2");
    assert_eq!(*search.reference_get(), vec![String::from("reference2")]);
    assert_eq!(*search.min_stars_get(), 200);
    assert_eq!(*search.max_stars_get(), 2000);
    assert_eq!(*search.github_fork_get(), false);
}

#[test]
fn test_search_cosine_similarities_full_empty_vectors() {
    // Two empty lists are identical in that both lack any elements, so the
    // average similarity is defined as full similarity.
    let word: Vec<String> = Vec::new();
    let query: Vec<String> = Vec::new();

    let similarity = sims(&word, &query);

    assert_eq!(similarity, 1.0);
}

#[test]
fn test_search_cosine_similarities_word_empty_vectors() {
    // With an empty value list there are no pairs to evaluate, so the
    // similarity is zero.
    let word: Vec<String> = Vec::new();
    let query: Vec<String> = vec!["This is a sample text.".to_owned()];

    let similarity = sims(&word, &query);

    assert_eq!(similarity, 0.0);
}

#[test]
fn test_search_cosine_similarities_query_empty_vectors() {
    // With an empty query list there are no pairs to evaluate, so the
    // similarity is zero.
    let word: Vec<String> = vec!["This is a sample text.".to_owned()];
    let query: Vec<String> = Vec::new();

    let similarity = sims(&word, &query);

    assert_eq!(similarity, 0.0);
}

#[test]
fn test_search_cosine_similarity_full_empty_strings() {
    // Two empty strings overlap completely: full similarity.
    let word = "";
    let query = "";

    let similarity = sim(word, query);

    assert_eq!(similarity, 1.0);
}

#[test]
fn test_search_cosine_similarity_empty_word_with_query_strings() {
    // An empty string has no bigrams, so it shares no features with any
    // non-empty string.
    let word = "";
    let query = "test";

    let similarity = sim(word, query);

    assert_eq!(similarity, 0.0);
}

#[test]
fn test_search_cosine_similarity_word_with_empty_query() {
    let word = "test";
    let query = "";

    let similarity = sim(word, query);

    assert_eq!(similarity, 0.0);
}

#[test]
fn test_search_cosine_similarities_full_long_vectors_equal() {
    let value = vec![
        "aaaa".to_owned(),
        "aaab".to_owned(),
        "aabc".to_owned(),
        "abcd".to_owned(),
    ];
    let query = vec![
        "aaaa".to_owned(),
        "aaab".to_owned(),
        "aabc".to_owned(),
        "abcd".to_owned(),
    ];

    let similarity = sims(&value, &query);

    let expected_similarity = 0.646405;
    let tolerance = 0.001;

    assert!(
        (similarity - expected_similarity).abs() < tolerance,
        "The similarity value is not within the expected range"
    );
}

#[test]
fn test_search_cosine_similarities_full_long_reversed_vectors() {
    let value = vec![
        "aaaa".to_owned(),
        "aaab".to_owned(),
        "aabc".to_owned(),
        "abcd".to_owned(),
    ];
    let query = vec![
        "abcd".to_owned(), // Reversed order compared to 'value'
        "aabc".to_owned(),
        "aaab".to_owned(),
        "aaaa".to_owned(),
    ];

    let similarity = sims(&value, &query);

    let expected_similarity = 0.646405;
    let tolerance = 0.001;

    assert!(
        (similarity - expected_similarity).abs() < tolerance,
        "The similarity value is not within the expected range"
    );
}

#[test]
fn test_search_cosine_similarities_1_long_vectors_equal() {
    // A single pair of identical strings is perfectly similar.
    let word = vec!["aa".to_owned()];
    let query = vec!["aa".to_owned()];

    let similarity = sims(&word, &query);

    assert_eq!(similarity, 1.0);
}

#[test]
fn test_search_cosine_similarities_1_long_vectors_not_equal() {
    // "aa" and "cb" share no bigrams, so they are fully dissimilar.
    let word = vec!["aa".to_owned()];
    let query = vec!["cb".to_owned()];

    let similarity = sims(&word, &query);

    assert_eq!(similarity, 0.0);
}

#[test]
fn test_search_cosine_similarities_2_char_strings_vectors_have_not_equal_values() {
    // "aa" holds only the bigram "aa", "ab" only the bigram "ab": no common
    // feature, so the similarity is zero.
    let value = vec!["aa".to_owned()];
    let query = vec!["ab".to_owned()];

    let similarity = sims(&value, &query);

    assert_eq!(similarity, 0.0);
}

#[test]
fn test_search_cosine_similarities_2_char_strings_vectors_have_not_equal_value_revers() {
    let value = vec!["aa".to_owned()];
    let query = vec!["ba".to_owned()];

    let similarity = sims(&value, &query);

    assert_eq!(similarity, 0.0);
}

#[test]
fn test_search_cosine_similarities_1_long_vectors_2_by_3_1_equal() {
    let word = vec!["baa".to_owned()];
    let query = vec!["baa".to_owned()];

    let similarity = sims(&word, &query);

    assert_eq!(similarity, 1.0);
}

#[test]
fn test_search_cosine_similarity_string_1_by_1_equal() {
    let word: &str = "aaa";
    let query: &str = "aaa";

    let similarity = sim(word, query);

    assert_eq!(similarity, 1.0);
}

#[test]
fn test_search_cosine_similarity_string_1_by_1_not_equal() {
    let word: &str = "aaa";
    let query: &str = "bbb";

    let similarity = sim(word, query);

    assert_eq!(similarity, 0.0);
}

#[test]
fn test_search_cosine_similarity_string_1_4_by_1_2_not_equal() {
    let word: &str = "aaaa";
    let query: &str = "bb";

    let similarity = sim(word, query);

    assert_eq!(similarity, 0.0);
}

#[test]
fn test_search_cosine_similarity_string_1_4_by_1_2_05_equal() {
    // "aa" is entirely contained in "aaaa": both hold only the bigram "aa",
    // so the cosine of the two count vectors is exactly one.
    let word: &str = "aaaa";
    let query: &str = "aa";

    let similarity = sim(word, query);

    assert_eq!(similarity, 1.0);
}
