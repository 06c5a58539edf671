use working_copy::help::{categories, find_category, requested_category};
use working_copy::text::{path_is_under, str_equal};

#[test]
fn finds_revsets_category() {
    let c = find_category("revsets").unwrap();
    assert_eq!(c.description, "A functional language for selecting a set of revision");
}

#[test]
fn finds_tutorial_category() {
    let c = find_category("tutorial").unwrap();
    assert_eq!(c.description, "Show a tutorial to get started with jj");
}

#[test]
fn unknown_category_is_none() {
    assert!(find_category("log").is_none());
    assert!(find_category("").is_none());
    assert!(find_category("revset").is_none());
}

#[test]
fn categories_are_listed_in_order() {
    let names: Vec<&str> = categories().iter().map(|c| c.0).collect();
    assert_eq!(names, vec!["revsets", "tutorial"]);
}

#[test]
fn string_equality_is_exact() {
    assert!(str_equal("héllo", "héllo"));
    assert!(!str_equal("hello", "hellO"));
    assert!(!str_equal("a", "ab"));
    assert!(str_equal("", ""));
}

#[test]
fn directory_prefix_needs_separator() {
    assert!(path_is_under("a", "a/b"));
    assert!(!path_is_under("a", "ab"));
    assert!(!path_is_under("a", "a"));
}

#[test]
fn single_word_names_a_topic() {
    let words = vec!["revsets".to_string()];
    assert!(requested_category(&words).is_some());
    let two = vec!["revsets".to_string(), "tutorial".to_string()];
    assert!(requested_category(&two).is_none());
    assert!(requested_category(&Vec::new()).is_none());
    assert!(requested_category(&vec!["log".to_string()]).is_none());
}
