use exchange::route::{find_route, forward_uri, wildcard_matches, Route};
use exchange::uri::Uri;

fn route(pattern: &str, target: &str, wildcard: bool) -> Route {
    Route {
        pattern: Uri::parse(pattern).unwrap(),
        target: Uri::parse(target).unwrap(),
        wildcard,
    }
}

#[test]
fn exact_routes_match_one_path() {
    let route = route("/api/users", "http://users-service:3000", false);
    assert!(route.matches("/api/users"));
    assert!(!route.matches("/api/users/1"));
    assert!(!route.matches("/api/user"));
    assert!(!route.matches("/"));
    assert!(!route.matches(""));
}

#[test]
fn wildcard_routes_match_what_starts_with_the_pattern() {
    let route = route("/assets", "http://static-files:9000", true);
    assert!(route.matches("/assets"));
    assert!(route.matches("/assets/main.css"));
    assert!(route.matches("/assets2"));
    assert!(!route.matches("/asset"));
    assert!(!route.matches("/x/assets"));
}

#[test]
fn wildcards_go_by_the_shown_pattern() {
    assert!(wildcard_matches("/a", "/a/b"));
    assert!(wildcard_matches("", "/a"));
    assert!(!wildcard_matches("/a/b", "/a"));
    let pattern = route("http://h", "http://t", true);
    assert!(pattern.matches("http://h/x"));
    assert!(!pattern.matches("http://h"));
}

#[test]
fn first_matching_route_is_found() {
    let routes = vec![
        route("/a", "http://one", false),
        route("/", "http://two", true),
        route("/a/b", "http://three", false),
    ];
    assert_eq!(find_route(&routes, "/a"), Some(0));
    assert_eq!(find_route(&routes, "/a/b"), Some(1));
    assert_eq!(find_route(&routes, "*"), None);
    assert_eq!(find_route(&Vec::new(), "/a"), None);
}

#[test]
fn uri_to_send_to() {
    assert_eq!(forward_uri("http://h/", "/a/b", None), "http://h/a/b");
    assert_eq!(forward_uri("http://h/", "/a", Some("x=1")), "http://h/a?x=1");
    assert_eq!(forward_uri("http://h/", "/a", Some("")), "http://h/a?");
    assert_eq!(forward_uri("http://h/", "///a//b", None), "http://h///a//b");
    assert_eq!(forward_uri("http://h/", "/", None), "http://h/");
    assert_eq!(forward_uri("http://h/base", "/a", None), "http://h/base/a");
    assert_eq!(forward_uri("http://h/base/", "/a", None), "http://h/base/a");
    assert_eq!(forward_uri("http://h/base//", "/a", None), "http://h/base//a");
    assert_eq!(forward_uri("http://h/", "*", None), "http://h/*");
    assert_eq!(forward_uri("", "/a", None), "/a");
    assert_eq!(forward_uri("", "", None), "");
}

#[test]
fn path_follows_the_address_of_a_service() {
    let users = route("/api/users", "http://users-service:3000", false);
    assert_eq!(
        users.forward("/api/users", None),
        "http://users-service:3000/api/users"
    );
    let assets = route("/assets", "http://static-files:9000", true);
    assert_eq!(
        assets.forward("/assets/main.css", Some("v=2")),
        "http://static-files:9000/assets/main.css?v=2"
    );
    assert_eq!(
        assets.clone().forward("/assets/img.png", None),
        "http://static-files:9000/assets/img.png"
    );
}

#[test]
fn path_follows_a_base_with_a_path() {
    let based = route("/", "http://h:1/base", true);
    assert_eq!(based.forward("/x", None), "http://h:1/base/x");
    assert_eq!(based.forward("/x", Some("q=1")), "http://h:1/base/x?q=1");
    let slashed = route("/", "http://h:1/base/", true);
    assert_eq!(slashed.forward("/x", None), "http://h:1/base/x");
}

#[test]
fn path_arrives_unchanged() {
    let route = route("/", "http://h", true);
    assert_eq!(route.forward("/a", None), "http://h/a");
    assert_eq!(route.forward("//a", None), "http://h//a");
    assert_eq!(route.forward("/", None), "http://h/");
}

#[test]
fn routes_are_exact_unless_said_otherwise() {
    let made = |wildcard: Option<bool>| {
        Route::from_settings(
            Uri::parse("/a").unwrap(),
            Uri::parse("http://h").unwrap(),
            wildcard,
        )
    };
    assert!(!made(None).wildcard);
    assert!(!made(Some(false)).wildcard);
    assert!(made(Some(true)).wildcard);
    assert!(made(None).matches("/a"));
    assert!(!made(None).matches("/a/b"));
    assert_eq!(made(None).pattern.to_string(), "/a");
    assert_eq!(made(None).target.to_string(), "http://h/");
}
