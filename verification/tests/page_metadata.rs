use loki_migration::PageMetadata;

fn metadata(
    title: Option<&str>,
    description: Option<&str>,
    keywords: Vec<&str>,
) -> PageMetadata {
    PageMetadata {
        title: title.map(String::from),
        description: description.map(String::from),
        keywords: keywords.into_iter().map(String::from).collect(),
    }
}

#[test]
fn simple() {}

#[test]
fn other() {}

#[test]
fn merge_combines_titles_and_descriptions() {
    let mut base = metadata(Some("Site"), Some("All about it."), vec![]);
    let layer = metadata(Some("Page"), Some("This page."), vec![]);
    base.merge(&layer).unwrap();
    assert_eq!(Some("Page - Site".to_string()), base.title);
    assert_eq!(Some("This page. All about it.".to_string()), base.description);
}

#[test]
fn merge_keeps_the_only_value_present() {
    let mut base = metadata(None, Some("Only description."), vec![]);
    let layer = metadata(Some("Only title"), None, vec![]);
    base.merge(&layer).unwrap();
    assert_eq!(Some("Only title".to_string()), base.title);
    assert_eq!(Some("Only description.".to_string()), base.description);
}

#[test]
fn merge_without_new_keywords_keeps_the_old() {
    let mut base = metadata(None, None, vec!["Zebra", "ant"]);
    let layer = metadata(None, None, vec![]);
    base.merge(&layer).unwrap();
    assert_eq!(vec!["Zebra".to_string(), "ant".to_string()], base.keywords);
}

#[test]
fn merge_lowercases_sorts_and_deduplicates_keywords() {
    let mut base = metadata(None, None, vec!["Zebra", "Ant"]);
    let layer = metadata(None, None, vec!["zebra", "bee"]);
    base.merge(&layer).unwrap();
    assert_eq!(
        vec!["ant".to_string(), "bee".to_string(), "zebra".to_string()],
        base.keywords
    );
}
