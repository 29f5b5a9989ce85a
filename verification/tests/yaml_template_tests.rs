use wami::yaml_template::YamlTemplate;

#[test]
fn test_unique_id() {
    let template1 = YamlTemplate {
        id: "template1".to_owned(),
        title: "Template 1".to_owned(),
        tags: vec![],
        description: "".to_owned(),
        references: vec![],
        why_not: vec![],
    };

    let template2 = YamlTemplate {
        id: "template2".to_owned(),
        title: "Template 2".to_owned(),
        tags: vec![],
        description: "".to_owned(),
        references: vec![],
        why_not: vec![],
    };

    assert_ne!(template1.id, template2.id);
}

#[test]
fn test_title_property() {
    let template = YamlTemplate {
        id: "template1".to_owned(),
        title: "Template 1".to_owned(),
        tags: vec![],
        description: "".to_owned(),
        references: vec![],
        why_not: vec![],
    };

    assert_eq!(template.title, "Template 1");
}

#[test]
fn test_tags_property() {
    let template = YamlTemplate {
        id: "template1".to_owned(),
        title: "".to_owned(),
        tags: vec!["tag1".to_owned(), "tag2".to_owned()],
        description: "".to_owned(),
        references: vec![],
        why_not: vec![],
    };

    assert_eq!(template.tags, vec!["tag1", "tag2"]);
}

#[test]
fn test_description_property() {
    let template = YamlTemplate {
        id: "template1".to_owned(),
        title: "".to_owned(),
        tags: vec![],
        description: "This is a sample template.".to_owned(),
        references: vec![],
        why_not: vec![],
    };

    assert_eq!(template.description, "This is a sample template.");
}

#[test]
fn test_references_property() {
    let template = YamlTemplate {
        id: "template1".to_owned(),
        title: "".to_owned(),
        tags: vec![],
        description: "".to_owned(),
        references: vec!["https://example.com".to_owned()],
        why_not: vec![],
    };

    assert_eq!(template.references, vec!["https://example.com"]);
}

#[test]
fn test_why_not() {
    let template = YamlTemplate {
        id: "template1".to_owned(),
        title: "".to_owned(),
        tags: vec![],
        description: "".to_owned(),
        references: vec![],
        why_not: vec!["tango_ola".to_owned()],
    };

    assert_eq!(template.why_not, vec!["tango_ola"]);
}
