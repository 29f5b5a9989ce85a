use wami::template::Template;

#[test]
fn test_template_structure() {
    let tags_vec: Vec<String> = vec!["tag1".to_string(), "tag2".to_string()];
    let references_vec: Vec<String> = vec!["ref1".to_string(), "ref2".to_string()];
    let search_vec: Vec<String> = vec!["search2".to_string(), "search3".to_string()];
    let why_not_vec: Vec<String> = vec!["why_not1".to_string(), "why_not2".to_string()];
    let template: Template = Template::new(
        "id".to_string(),
        "id_search".to_string(),
        "title".to_string(),
        "title_search".to_string(),
        tags_vec.clone(),
        search_vec.clone(),
        "description".to_string(),
        "description_search".to_string(),
        references_vec.clone(),
        search_vec.clone(),
        why_not_vec.clone(),
    );

    assert_eq!(*template.id(), "id");
    assert_ne!(*template.id(), "no_id");
    assert_eq!(*template.title(), "title");
    assert_ne!(*template.title(), "no_title");
    assert_eq!(template.tags()[0], "tag1");
    assert_eq!(template.tags()[1], "tag2");
    assert_eq!(*template.tags(), tags_vec);
    assert_ne!(template.tags()[0], "tag2");
    assert_ne!(template.tags()[1], "tag1");
    assert_ne!(*template.tags(), why_not_vec);
    assert_eq!(*template.description(), "description");
    assert_ne!(*template.description(), "no_description");
    assert_eq!(template.references()[0], "ref1");
    assert_eq!(template.references()[1], "ref2");
    assert_eq!(*template.references(), references_vec);
    assert_ne!(template.references()[0], "ref2");
    assert_ne!(template.references()[1], "ref1");
    assert_ne!(*template.references(), tags_vec);
    assert_eq!(template.why_not()[0], "why_not1");
    assert_eq!(template.why_not()[1], "why_not2");
    assert_eq!(*template.why_not(), why_not_vec);
    assert_ne!(template.why_not()[0], "why_not2");
    assert_ne!(template.why_not()[1], "why_not1");
    assert_ne!(*template.why_not(), references_vec);
}

// The constructor converts the id and the tag values to lowercase.
#[test]
fn test_new() {
    let tags = vec!["Tag1".to_string(), "Tag2".to_string()];
    let references = vec!["ref1".to_string(), "ref2".to_string()];
    let search_vec: Vec<String> = vec!["search2".to_string(), "search3".to_string()];
    let why_not_vec: Vec<String> = vec!["why_not1".to_string(), "why_not2".to_string()];
    let template = Template::new(
        "Id".to_string(),
        "id_search".to_string(),
        "Title".to_string(),
        "title_search".to_string(),
        tags.clone(),
        search_vec.clone(),
        "Description".to_string(),
        "description_search".to_string(),
        references.clone(),
        search_vec.clone(),
        why_not_vec.clone(),
    );

    // The id and tags should be in lowercase
    assert_eq!(*template.id(), "id");
    assert_ne!(*template.id(), "Id");
    assert_eq!(*template.title(), "Title");
    assert_ne!(*template.title(), "title");
    assert_eq!(*template.tags(), vec!["tag1", "tag2"]);
    assert_eq!(template.tags()[0], "tag1");
    assert_ne!(template.tags()[0], "Tag1");
    assert_eq!(template.tags()[1], "tag2");
    assert_ne!(template.tags()[1], "Tag2");
    assert_ne!(*template.tags(), vec!["Tag1", "Tag2"]);
    assert_ne!(*template.tags(), vec!["tag1", "Tag2"]);
    assert_ne!(*template.tags(), vec!["Tag1", "tag2"]);
    assert_eq!(*template.description(), "Description");
    assert_ne!(*template.description(), "description");
    assert_eq!(*template.references(), vec!["ref1", "ref2"]);
    assert_eq!(template.references()[0], "ref1");
    assert_eq!(template.references()[1], "ref2");
    assert_ne!(template.references()[0], "Ref1");
    assert_ne!(template.references()[1], "Ref2");
    assert_ne!(*template.references(), vec!["Ref1", "Ref2"]);
    assert_ne!(*template.references(), vec!["ref1", "Ref2"]);
    assert_ne!(*template.references(), vec!["Ref1", "ref2"]);
    assert_eq!(*template.why_not(), vec!["why_not1", "why_not2"]);
    assert_eq!(template.why_not()[0], "why_not1");
    assert_eq!(template.why_not()[1], "why_not2");
    assert_ne!(*template.why_not(), vec!["Why_not1", "why_not2"]);
    assert_ne!(*template.why_not(), vec!["why_not1", "Why_not2"]);
    assert_ne!(template.why_not()[0], "Why_not1");
    assert_ne!(template.why_not()[1], "Why_not2");
}

fn sample_template(title_search: &str, why_not: Vec<String>) -> Template {
    let tags: Vec<String> = vec!["tag1".to_string(), "tag2".to_string()];
    let references: Vec<String> = vec!["ref1".to_string(), "ref2".to_string()];
    Template::new(
        "id".to_string(),
        "id_search".to_string(),
        "title".to_string(),
        title_search.to_string(),
        tags.clone(),
        tags.clone(),
        "description".to_string(),
        "description_search".to_string(),
        references.clone(),
        references.clone(),
        why_not,
    )
}

// to_string with why_not = true: the recorded alternatives are listed.
#[test]
fn test_to_string() {
    let in_why_not_bool = true;
    let why_not: Vec<String> = vec!["why_not1".to_string(), "why_not2".to_string()];
    let template = sample_template("title_search", why_not);

    let expected_output = "id title\n    tag1, tag2\n    description\n    ref1\n    ref2\n    Why Not why_not1\nWhy Not why_not2";
    assert_eq!(template.to_string(in_why_not_bool), expected_output);
}

// to_string with why_not = false
#[test]
fn test_to_string_why_not_false() {
    let in_why_not_bool = false;
    let why_not: Vec<String> = vec!["why_not1".to_string(), "why_not2".to_string()];
    let template = sample_template("title_search", why_not);

    let expected_output = "id title\n    tag1, tag2\n    description\n    ref1\n    ref2";
    assert_eq!(template.to_string(in_why_not_bool), expected_output);
}

#[test]
fn test_to_short_string() {
    let in_why_not_bool = true;
    let why_not: Vec<String> = vec!["why_not1".to_string(), "why_not2".to_string()];
    let template = sample_template("title", why_not);

    let expected_output: &str = "id title\n    tag1, tag2\n    description\n    ref1\n    ref2\n    Why Not why_not1\nWhy Not why_not2";
    assert_eq!(template.to_string(in_why_not_bool), expected_output);
}

#[test]
fn test_to_short_string_why_not_false() {
    let in_why_not_bool = false;
    let why_not: Vec<String> = vec!["why_not1".to_string(), "why_not2".to_string()];
    let template = sample_template("title", why_not);

    let expected_output: &str = "id title\n    tag1, tag2\n    description\n    ref1\n    ref2";
    assert_eq!(template.to_string(in_why_not_bool), expected_output);
}

#[test]
fn test_to_short_string_with_why_not() {
    let in_why_not_bool = false;
    let why_not: Vec<String> = vec!["why_not1".to_string(), "why_not2".to_string()];
    let template = sample_template("title_search", why_not);

    let expected_output: &str = "id title\n    tag1, tag2\n    description\n    ref1\n    ref2";
    assert_eq!(template.to_string(in_why_not_bool), expected_output);
}

#[test]
fn test_to_short_string_with_why_not_why_not_true() {
    let in_why_not_bool = true;
    let why_not: Vec<String> = vec!["why_not1".to_string(), "why_not2".to_string()];
    let template = sample_template("title_search", why_not);

    let expected_output: &str = "id title\n    tag1, tag2\n    description\n    ref1\n    ref2\n    Why Not why_not1\nWhy Not why_not2";
    assert_eq!(template.to_string(in_why_not_bool), expected_output);
}

#[test]
fn test_tags_to_string() {
    let why_not: Vec<String> = vec!["why_not1".to_string(), "why_not2".to_string()];
    let template = sample_template("title_search", why_not);

    let expected_output: &str = "tag1, tag2";
    assert_eq!(template.tags_to_string(), expected_output);
}

#[test]
fn test_references_to_string() {
    let why_not: Vec<String> = vec!["why_not1".to_string(), "why_not2".to_string()];
    let template = sample_template("title_search", why_not);

    let expected_output: &str = "    ref1\n    ref2";
    assert_eq!(template.references_to_string(), expected_output);
}

#[test]
fn test_why_not_to_string() {
    let why_not: Vec<String> = vec!["why_not1".to_string(), "why_not2".to_string()];
    let template = sample_template("title_search", why_not);

    let expected_output: &str = "Why Not why_not1\nWhy Not why_not2";
    assert_eq!(template.why_not_to_string(), expected_output);
}

#[test]
fn test_convert_to_lowercase_alphanumeric_with_hyphens() {
    let input_string = "Convert-ME)into*Lowercase!".to_string();
    let expected_output = "convert-meintolowercase".to_string();

    assert_eq!(
        Template::convert_to_lowercase_alphanumeric_with_hyphens(&input_string),
        expected_output
    );
}

#[test]
fn test_convert_tags_to_excepted_format() {
    let input_tags = vec!["ConvertME".to_string(), "Into-Lowercase!".to_string()];
    let expected_output = vec!["convertme".to_string(), "into-lowercase".to_string()];

    assert_eq!(
        Template::convert_tags_to_excepted_format(&input_tags),
        expected_output
    );
}

// The compact form lists the alternatives when the flag is set, and omits
// the block when the flag is off.
#[test]
fn short_string_lists_alternatives_when_flagged() {
    let why_not: Vec<String> = vec!["why_not1".to_string(), "why_not2".to_string()];
    let template = sample_template("title_search", why_not);

    assert_eq!(
        template.to_short_string(true),
        "title\n    ref1\n    ref2\n    Why Not why_not1\nWhy Not why_not2"
    );
    assert_eq!(template.to_short_string(false), "title\n    ref1\n    ref2");
}

// With no recorded alternatives there is no block, flag or not.
#[test]
fn no_alternatives_block_without_alternatives() {
    let template = sample_template("title_search", vec![]);

    let expected = "id title\n    tag1, tag2\n    description\n    ref1\n    ref2";
    assert_eq!(template.to_string(true), expected);
    assert_eq!(template.to_string(false), expected);
    assert_eq!(template.to_short_string(true), "title\n    ref1\n    ref2");
}
