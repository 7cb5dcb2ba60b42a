use core::str::FromStr;
use loki_migration::{NewsForm, NewsItem};

fn form(title: Option<&str>, url: Option<&str>) -> NewsForm {
    NewsForm {
        id: None,
        title: title.map(String::from),
        url: url.map(String::from),
        notes: None,
        hidden: None,
        action: None,
    }
}

#[test]
fn for_create_is_blank() {
    let item = NewsItem::for_create();
    assert!(item.id.is_none());
    assert_eq!("", item.title);
    assert!(item.url.is_none());
    assert!(item.notes.is_none());
    assert!(!item.hidden);
}

#[test]
fn form_becomes_article() {
    let mut submitted = form(Some("A headline"), Some("https://example.com/a"));
    submitted.id = Some(9);
    submitted.hidden = Some(true);
    let item = NewsItem::from_form(submitted);
    assert_eq!(Some(9), item.id);
    assert_eq!("A headline", item.title);
    assert_eq!(Some("https://example.com/a".to_string()), item.url);
    assert!(item.hidden);

    let blank = NewsItem::from_form(form(None, None));
    assert_eq!("", blank.title);
    assert!(!blank.hidden);
}

#[test]
fn valid_form_passes_validation() {
    let form = form(Some("A headline"), Some("https://example.com/article"));
    assert!(form.validate().is_none());
}

#[test]
fn missing_fields_are_reported_in_order() {
    let form = form(None, None);
    let errors = form.validate().unwrap();
    assert_eq!(
        vec![
            "A title is required for each news article".to_string(),
            "A location for news article is required".to_string(),
        ],
        errors
    );
}

#[test]
fn empty_fields_are_reported() {
    let form = form(Some(""), Some(""));
    let errors = form.validate().unwrap();
    assert_eq!(
        vec![
            "A title is required".to_string(),
            "A location for news article is required".to_string(),
        ],
        errors
    );
}

#[test]
fn invalid_location_carries_the_parser_error() {
    let bad = "http://exa mple.com";
    let form = form(Some("A headline"), Some(bad));
    let errors = form.validate().unwrap();
    let parser_error = http::Uri::from_str(bad).unwrap_err();
    assert_eq!(
        vec![format!("The provided location is invalid '{parser_error}'")],
        errors
    );
}
