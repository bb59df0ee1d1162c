use exchange::uri::{Uri, MAX_URI_LEN};
use exchange::uri_serde::UriSerde;

fn shown(text: &str) -> Option<String> {
    Uri::parse(text).map(|uri| uri.to_string())
}

#[test]
fn plain_paths_are_shown_as_they_are() {
    for text in ["/", "/api/users", "/a%20b;c=(1)!$&'*+,~_-.:@", "//a//"] {
        assert_eq!(shown(text).as_deref(), Some(text));
    }
}

#[test]
fn longest_plain_path() {
    let longest = format!("/{}", "a".repeat(MAX_URI_LEN - 1));
    assert_eq!(shown(&longest), Some(longest.clone()));
    assert_eq!(shown(&format!("{longest}a")), None);
}

#[test]
fn addresses_are_shown_with_a_path() {
    assert_eq!(
        shown("http://users-service:3000").as_deref(),
        Some("http://users-service:3000/")
    );
    assert_eq!(shown("https://h").as_deref(), Some("https://h/"));
    assert_eq!(shown("http://:").as_deref(), Some("http://:/"));
    assert_eq!(
        shown("http://a_b!$&'()*+,;=~-.c:80").as_deref(),
        Some("http://a_b!$&'()*+,;=~-.c:80/")
    );
    assert_eq!(shown("http://h/").as_deref(), Some("http://h/"));
    assert_eq!(
        shown("https://h:1/base/x@y").as_deref(),
        Some("https://h:1/base/x@y")
    );
}

#[test]
fn whatever_parses_is_not_rewritten() {
    for text in ["/{id}", "/ä/\"x\"", "http://[::1]:80/a", "http://u:p%20@h/|"] {
        assert_eq!(shown(text).as_deref(), Some(text));
    }
    assert_eq!(
        shown("https://[::1]:80").as_deref(),
        Some("https://[::1]:80/")
    );
    let uri = Uri::parse("/ä").unwrap();
    assert!(uri.equals("/ä"));
    assert!(!uri.equals("/äb"));
}

#[test]
fn other_uris_are_normalised() {
    assert_eq!(shown("HTTP://h/a?b#c").as_deref(), Some("http://h/a?b"));
    assert_eq!(shown("localhost:3000").as_deref(), Some("localhost:3000"));
    assert_eq!(shown("*").as_deref(), Some("*"));
}

#[test]
fn texts_that_are_no_uris() {
    for text in ["", "/a b", "http://", "http://h:1:2", "mailto:x/y", "?q"] {
        assert!(Uri::parse(text).is_none(), "{text}");
    }
}

#[test]
fn plain_paths_equal_themselves_only() {
    let uri = Uri::parse("/api/users").unwrap();
    assert!(uri.equals("/api/users"));
    assert!(uri.equals("/api/users#top"));
    for other in ["/api/users/", "/api/user", "/api/users?", "/API/users", "", "#"] {
        assert!(!uri.equals(other), "{other}");
    }
}

#[test]
fn other_uris_compare_as_uris() {
    let uri = Uri::parse("http://h").unwrap();
    assert!(uri.equals("HTTP://H"));
    assert!(uri.equals("http://h/"));
    assert!(!uri.equals("/"));
}

#[test]
fn checked_texts_become_uris() {
    let checked = UriSerde::new("/api/users").unwrap();
    let uri = Uri::from(checked).unwrap();
    assert_eq!(uri.to_string(), "/api/users");
    assert_eq!(uri.clone().to_string(), "/api/users");
    assert_eq!(
        UriSerde::try_from(uri).map(UriSerde::into_string),
        Ok("/api/users".to_string())
    );
    // Checked, and yet not accepted.
    assert!(Uri::from(UriSerde::new("mailto:x/y").unwrap()).is_none());
}

#[test]
fn shown_text_is_checked() {
    let uri = Uri::parse("http://h").unwrap();
    assert_eq!(
        UriSerde::try_from(uri).map(UriSerde::into_string),
        Ok("http://h/".to_string())
    );
    let uri = Uri::parse("/a:b").unwrap();
    assert_eq!(
        UriSerde::try_from(uri).map(UriSerde::into_string),
        Err("Scheme must start with letter, found '/'".to_string())
    );
}
