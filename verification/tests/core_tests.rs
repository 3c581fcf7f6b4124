use to_links::distance::levenshtein;
use to_links::models::{default_limit, default_page, NewLink};

#[test]
fn test_levenshtein_distance() {
    assert_eq!(levenshtein("kitten", "sitting"), 3);
    assert_eq!(levenshtein("book", "back"), 2);
    assert_eq!(levenshtein("kubernetes", "kubernetes"), 0);
    assert_eq!(levenshtein("kubernetes", "kbernetes"), 1); // missing u
    assert_eq!(levenshtein("", "abc"), 3);
    assert_eq!(levenshtein("abc", ""), 3);
}

#[test]
fn test_new_link_validation() {
    let valid_link = NewLink {
        short_link: "my-link".to_string(),
        url: "https://example.com".to_string(),
    };
    assert!(valid_link.validate().is_ok());

    let valid_link_dots = NewLink {
        short_link: "my.link".to_string(),
        url: "https://example.com".to_string(),
    };
    assert!(valid_link_dots.validate().is_ok());

    let invalid_chars = NewLink {
        short_link: "my link".to_string(), // space is invalid
        url: "https://example.com".to_string(),
    };
    assert!(invalid_chars.validate().is_err());

    let empty_link = NewLink {
        short_link: "".to_string(),
        url: "https://example.com".to_string(),
    };
    assert!(empty_link.validate().is_err());

    let invalid_symbol = NewLink {
        short_link: "link!".to_string(),
        url: "https://example.com".to_string(),
    };
    assert!(invalid_symbol.validate().is_err());
}

#[test]
fn test_validation_error_messages() {
    let empty_link = NewLink {
        short_link: "".to_string(),
        url: "https://example.com".to_string(),
    };
    assert_eq!(empty_link.validate(), Err("Short link cannot be empty"));

    let invalid_chars = NewLink {
        short_link: "bad key".to_string(),
        url: "https://example.com".to_string(),
    };
    assert_eq!(invalid_chars.validate(), Err("Invalid characters in short link"));

    let colon = NewLink {
        short_link: "a:b".to_string(),
        url: "https://example.com".to_string(),
    };
    assert_eq!(colon.validate(), Ok(()));
}

#[test]
fn test_distance_self_and_empty() {
    assert_eq!(levenshtein("", ""), 0);
    assert_eq!(levenshtein("a", "a"), 0);
    assert_eq!(levenshtein("same-string", "same-string"), 0);
    assert_eq!(levenshtein("", "xyzw"), 4);
    assert_eq!(levenshtein("xyzw", ""), 4);
}

#[test]
fn test_distance_counts_scalars_not_bytes() {
    // Each of these differs in exactly one Unicode scalar value.
    assert_eq!(levenshtein("caf\u{e9}", "cafe"), 1);
    assert_eq!(levenshtein("\u{3042}\u{3044}", "\u{3042}"), 1);
}

#[test]
fn test_defaults() {
    assert_eq!(default_page(), 1);
    assert_eq!(default_limit(), 10);
}
