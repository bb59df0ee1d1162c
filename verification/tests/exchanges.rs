use exchange::config::Span;
use exchange::headers::{forward_headers, return_headers, Header, ReceivedHeader};
use exchange::proxy::{Action, Event, Proxy, Reply, RequestHead, Stage};
use exchange::route::Route;
use exchange::uri::Uri;

fn proxy() -> Proxy {
    let route = |pattern: &str, target: &str, wildcard: bool| Route {
        pattern: Uri::parse(pattern).unwrap(),
        target: Uri::parse(target).unwrap(),
        wildcard,
    };
    Proxy {
        routes: vec![
            route("/api/users", "http://users-service:3000", false),
            route("/assets", "http://static-files:9000", true),
        ],
        max_body_bytes: 2097152,
        gateway_expectation: Span { secs: 1, nanos: 0 },
        gateway_timeout: Span { secs: 10, nanos: 0 },
    }
}

fn header(name: &str, value: &str) -> Header {
    Header {
        name: name.to_string(),
        value: value.as_bytes().to_vec(),
    }
}

fn received(name: Option<&str>, value: &str) -> ReceivedHeader {
    ReceivedHeader {
        name: name.map(str::to_string),
        value: value.as_bytes().to_vec(),
    }
}

fn get(path: &str, query: Option<&str>) -> RequestHead {
    RequestHead {
        method: "GET".to_string(),
        path: path.to_string(),
        query: query.map(str::to_string),
        headers: vec![
            header("host", "localhost:8080"),
            header("accept", "*/*"),
            header("Content-Length", "3"),
            header("accept", "text/html"),
        ],
    }
}

fn pairs(headers: &[Header]) -> Vec<(String, String)> {
    headers
        .iter()
        .map(|h| (h.name.clone(), String::from_utf8(h.value.clone()).unwrap()))
        .collect()
}

fn answered(step: (Stage, Action)) -> Reply {
    match step {
        (Stage::Answered, Action::Answer(reply)) => reply,
        _ => panic!("the exchange goes on"),
    }
}

fn assert_refusal(reply: Reply, status: u16, message: &str) {
    assert_eq!(reply.status, status);
    assert!(reply.headers.is_empty());
    assert_eq!(reply.body, message.as_bytes());
}

#[test]
fn unrouted_request_is_not_found() {
    let reply = answered(proxy().receive(get("/api/posts", None)));
    assert_refusal(reply, 404, "pluh could not find that one for ya");
}

#[test]
fn whole_exchange() {
    let proxy = proxy();
    let (stage, action) = proxy.receive(get("/assets/img.png", Some("v=1")));
    assert!(matches!(action, Action::CollectBody { limit: 2097152 }));

    let event = Event::Body(b"abc".to_vec());
    assert!(stage.accepts(&event));
    let (stage, action) = proxy.step(stage, event);
    let Action::Send(outgoing) = action else {
        panic!("nothing is sent");
    };
    assert_eq!(outgoing.method, "GET");
    assert_eq!(outgoing.uri, "http://static-files:9000/assets/img.png?v=1");
    assert_eq!(
        pairs(&outgoing.headers),
        vec![
            ("accept".to_string(), "*/*".to_string()),
            ("accept".to_string(), "text/html".to_string())
        ]
    );
    assert_eq!(outgoing.body, Some(b"abc".to_vec()));

    let event = Event::Reply {
        status: 201,
        headers: vec![
            received(Some("set-cookie"), "a"),
            received(None, "b"),
            received(Some("etag"), "c"),
        ],
    };
    assert!(stage.accepts(&event));
    let (stage, action) = proxy.step(stage, event);
    assert!(matches!(action, Action::CollectReply));

    let event = Event::ReplyBody(b"done".to_vec());
    assert!(stage.accepts(&event));
    let reply = answered(proxy.step(stage, event));
    assert_eq!(reply.status, 201);
    assert_eq!(
        pairs(&reply.headers),
        vec![
            ("set-cookie".to_string(), "a".to_string()),
            ("set-cookie".to_string(), "b".to_string()),
            ("etag".to_string(), "c".to_string())
        ]
    );
    assert_eq!(reply.body, b"done");
}

#[test]
fn empty_body_is_not_set() {
    let proxy = proxy();
    let (stage, _) = proxy.receive(get("/api/users", None));
    let (_, action) = proxy.step(stage, Event::Body(Vec::new()));
    match action {
        Action::Send(outgoing) => {
            assert_eq!(outgoing.body, None);
            assert_eq!(outgoing.uri, "http://users-service:3000/api/users");
        }
        _ => panic!("nothing is sent"),
    }
}

#[test]
fn refused_body_is_too_large() {
    let proxy = proxy();
    let (stage, _) = proxy.receive(get("/api/users", None));
    let reply = answered(proxy.step(stage, Event::BodyRefused));
    assert_refusal(reply, 413, "bro its a megabyte");
}

#[test]
fn oversized_body_is_too_large() {
    let mut proxy = proxy();
    proxy.max_body_bytes = 3;
    let (stage, _) = proxy.receive(get("/api/users", None));
    let reply = answered(proxy.step(stage, Event::Body(b"abcd".to_vec())));
    assert_refusal(reply, 413, "bro its a megabyte");
    let (stage, _) = proxy.receive(get("/api/users", None));
    let (_, action) = proxy.step(stage, Event::Body(b"abc".to_vec()));
    assert!(matches!(action, Action::Send(_)));
}

#[test]
fn failed_service_is_bad_gateway() {
    let proxy = proxy();
    let reply = answered(proxy.step(Stage::AwaitingReply, Event::SendFailed));
    assert_refusal(
        reply,
        502,
        "i tried to understand this server's response, but i could not for the life of me",
    );
    let stage = Stage::CollectingReply {
        status: 200,
        headers: Vec::new(),
    };
    let reply = answered(proxy.step(stage, Event::ReplyBodyFailed));
    assert_refusal(reply, 502, "Failed to read response from server");
}

#[test]
fn stages_accept_their_own_events() {
    let request = || Event::Request(get("/", None));
    let reply = || Event::Reply {
        status: 200,
        headers: Vec::new(),
    };
    assert!(Stage::Arrived.accepts(&request()));
    assert!(!Stage::Arrived.accepts(&reply()));
    assert!(Stage::AwaitingReply.accepts(&reply()));
    assert!(Stage::AwaitingReply.accepts(&Event::SendFailed));
    assert!(!Stage::AwaitingReply.accepts(&Event::BodyRefused));
    let reading = || Stage::CollectingReply {
        status: 200,
        headers: Vec::new(),
    };
    assert!(reading().accepts(&Event::ReplyBody(Vec::new())));
    assert!(reading().accepts(&Event::ReplyBodyFailed));
    assert!(!reading().accepts(&Event::SendFailed));
    for event in [
        request(),
        Event::Body(Vec::new()),
        Event::BodyRefused,
        reply(),
        Event::SendFailed,
        Event::ReplyBody(Vec::new()),
        Event::ReplyBodyFailed,
    ] {
        assert!(!Stage::Answered.accepts(&event));
    }
}

#[test]
fn request_event_is_received() {
    let step = proxy().step(Stage::Arrived, Event::Request(get("/nowhere", None)));
    assert_eq!(answered(step).status, 404);
}

#[test]
fn body_limit_is_the_configured_one() {
    let mut proxy = proxy();
    assert_eq!(proxy.body_limit(), 2097152);
    proxy.max_body_bytes = 0;
    assert_eq!(proxy.body_limit(), 0);
    proxy.max_body_bytes = u64::MAX;
    assert_eq!(proxy.body_limit(), usize::MAX);
}

#[test]
fn connection_fields_are_not_forwarded() {
    let sent = forward_headers(vec![
        header("HOST", "a"),
        header("x-host", "b"),
        header("content-length", "c"),
        header("content-type", "d"),
        header("hosts", "e"),
    ]);
    assert_eq!(
        pairs(&sent),
        vec![
            ("x-host".to_string(), "b".to_string()),
            ("content-type".to_string(), "d".to_string()),
            ("hosts".to_string(), "e".to_string())
        ]
    );
}

#[test]
fn nameless_fields_take_the_name_before_them() {
    let answered = return_headers(vec![
        received(None, "a"),
        received(Some("x"), "b"),
        received(None, "c"),
    ]);
    assert_eq!(
        pairs(&answered),
        vec![
            ("x".to_string(), "b".to_string()),
            ("x".to_string(), "c".to_string())
        ]
    );
    assert!(return_headers(vec![received(None, "a")]).is_empty());
}

#[test]
fn repeated_fields_come_back() {
    let answered = return_headers(vec![
        received(Some("x"), "1"),
        received(None, "2"),
        received(None, "3"),
        received(Some("y"), "4"),
        received(Some("x"), "5"),
        received(None, "6"),
    ]);
    let fields: Vec<(String, String)> = [
        ("x", "1"),
        ("x", "2"),
        ("x", "3"),
        ("y", "4"),
        ("x", "5"),
        ("x", "6"),
    ]
    .iter()
    .map(|(name, value)| (name.to_string(), value.to_string()))
    .collect();
    assert_eq!(pairs(&answered), fields);
}
