use rusticsoup::error::ExtractError;
use rusticsoup::extract::{extract_data, extract_data_bulk, parse_selector_spec};

fn mapping(entries: &[(&str, &str)]) -> Vec<(String, String)> {
    entries.iter().map(|(k, v)| (k.to_string(), v.to_string())).collect()
}

#[test]
fn example_record_extracted() {
    let html = "<div class='item'><a href='/x'>Title</a><span>$9</span></div>";
    let fields = mapping(&[("title", "a"), ("price", "span"), ("link", "a@href")]);
    let result = extract_data(html, "div.item", &fields).unwrap();
    assert_eq!(result.len(), 1);
    let expected: Vec<(String, String)> = vec![
        ("title".to_string(), "Title".to_string()),
        ("price".to_string(), "$9".to_string()),
        ("link".to_string(), "/x".to_string()),
    ];
    assert_eq!(result[0], expected);
}

#[test]
fn unmatched_field_key_still_present() {
    let html = "<div class='item'><a href='/x'>Title</a></div>";
    let fields = mapping(&[("title", "a"), ("price", "span.nope")]);
    let result = extract_data(html, "div.item", &fields).unwrap();
    assert_eq!(result.len(), 1);
    assert_eq!(result[0].len(), 2);
    assert_eq!(result[0][0], ("title".to_string(), "Title".to_string()));
    assert_eq!(result[0][1], ("price".to_string(), String::new()));
}

#[test]
fn repeated_extraction_identical() {
    let html = "<ul><li class='r'><a href='/a'>A</a></li><li class='r'><a href='/b'>B</a></li></ul>";
    let fields = mapping(&[("name", "a"), ("url", "a@href")]);
    let first = extract_data(html, "li.r", &fields).unwrap();
    let second = extract_data(html, "li.r", &fields).unwrap();
    assert_eq!(first, second);
    let pages = vec![html.to_string(), html.to_string()];
    let bulk_first = extract_data_bulk(&pages, "li.r", &fields).unwrap();
    let bulk_second = extract_data_bulk(&pages, "li.r", &fields).unwrap();
    assert_eq!(bulk_first, bulk_second);
}

#[test]
fn bulk_matches_single() {
    let pages = vec![
        "<div class='p'><span>one</span></div>".to_string(),
        "<div class='q'><span>nothing here</span></div>".to_string(),
        "<div class='p'><span>three</span></div><div class='p'><span>four</span></div>"
            .to_string(),
    ];
    let fields = mapping(&[("value", "span")]);
    let bulk = extract_data_bulk(&pages, "div.p", &fields).unwrap();
    assert_eq!(bulk.len(), pages.len());
    for (i, page) in pages.iter().enumerate() {
        let single = extract_data(page, "div.p", &fields).unwrap();
        assert_eq!(bulk[i], single);
    }
}

#[test]
fn missing_attribute_yields_empty_string() {
    let html = "<div class='item'><a href='/x'>Title</a></div>";
    let fields = mapping(&[("rel", "a@rel")]);
    let result = extract_data(html, "div.item", &fields).unwrap();
    assert_eq!(result.len(), 1);
    assert_eq!(result[0], vec![("rel".to_string(), String::new())]);
}

#[test]
fn container_without_match_yields_empty_sequence() {
    let html = "<div class='item'><a href='/x'>Title</a></div>";
    let fields = mapping(&[("title", "a")]);
    let result = extract_data(html, "section.absent", &fields).unwrap();
    assert!(result.is_empty());
}

#[test]
fn invalid_container_selector_is_error() {
    let fields = mapping(&[("title", "a")]);
    let err = extract_data("<div></div>", "div[", &fields).unwrap_err();
    match err {
        ExtractError::Selector { selector, field } => {
            assert_eq!(selector, "div[");
            assert!(field.is_none());
        }
        _ => panic!("expected a selector error"),
    }
}

#[test]
fn invalid_field_selector_is_error() {
    let fields = mapping(&[("title", "a[[")]);
    let err = extract_data("<div class='item'></div>", "div.item", &fields).unwrap_err();
    match err {
        ExtractError::Selector { selector, field } => {
            assert_eq!(selector, "a[[");
            assert_eq!(field, Some("title".to_string()));
        }
        _ => panic!("expected a selector error"),
    }
}

#[test]
fn malformed_field_spec_is_error() {
    let fields = mapping(&[("link", "a@href@x")]);
    let err = extract_data("<div class='item'></div>", "div.item", &fields).unwrap_err();
    match err {
        ExtractError::Selector { selector, field } => {
            assert_eq!(selector, "a@href@x");
            assert_eq!(field, Some("link".to_string()));
        }
        _ => panic!("expected a selector error"),
    }
}

#[test]
fn bulk_fails_fast_on_bad_mapping() {
    let pages = vec!["<div class='item'></div>".to_string()];
    let fields = mapping(&[("good", "a"), ("bad", "b@x@y")]);
    assert!(extract_data_bulk(&pages, "div.item", &fields).is_err());
}

#[test]
fn duplicated_field_name_is_kept_as_given() {
    let html = "<div class='item'><a href='/x'>Title</a></div>";
    let fields = mapping(&[("t", "a"), ("t", "a@href")]);
    let result = extract_data(html, "div.item", &fields).unwrap();
    assert_eq!(
        result[0],
        vec![
            ("t".to_string(), "Title".to_string()),
            ("t".to_string(), "/x".to_string()),
        ]
    );
}

#[test]
fn text_nodes_joined_with_spaces_and_trimmed() {
    let html = "<div class='i'><p> a <b>b</b> c </p></div>";
    let fields = mapping(&[("t", "p")]);
    let result = extract_data(html, "div.i", &fields).unwrap();
    assert_eq!(result[0], vec![("t".to_string(), "a  b  c".to_string())]);
}

#[test]
fn selector_spec_without_attribute() {
    let parsed = parse_selector_spec("div.row a").unwrap();
    assert_eq!(parsed.selector, "div.row a");
    assert!(parsed.attribute.is_none());
}

#[test]
fn selector_spec_with_attribute() {
    let parsed = parse_selector_spec("img@src").unwrap();
    assert_eq!(parsed.selector, "img");
    assert_eq!(parsed.attribute, Some("src".to_string()));
}

#[test]
fn selector_spec_with_two_ats_is_rejected() {
    assert!(parse_selector_spec("a@href@x").is_none());
}
