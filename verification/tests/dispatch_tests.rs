use mihttp::config::{parse_config, ServerEntry};
use mihttp::dispatch::{
    bad_gateway_reply, bad_request_reply, conclude, handle, is_root, not_found_reply,
    outbound_uri, welcome_reply, Action, BodyKind, Completion, HostHeader, InboundRequest,
    OutboundRequest, Reply,
};
use mihttp::routing::RoutingTable;

const WELCOME: &str = "<html><head><title>MiHTTP</title></head><body><h1>Welcome to MiHTTP</h1><p>Your reverse proxy server is running!</p></body></html>";

fn table() -> RoutingTable {
    RoutingTable::build(vec![
        ServerEntry {
            name: "example.com".to_string(),
            port: 8080,
            upstream: "127.0.0.1:9000".to_string(),
        },
        ServerEntry { name: "other.test".to_string(), port: 80, upstream: "10.0.0.2:80".to_string() },
    ])
}

fn request(host: HostHeader, path: &str, query: Option<&str>) -> InboundRequest<Vec<u8>> {
    InboundRequest {
        method: "POST".to_string(),
        path: path.to_string(),
        query: query.map(|q| q.to_string()),
        host,
        body: vec![1, 2, 3],
    }
}

fn named(host: &str) -> HostHeader {
    HostHeader::Named(host.to_string())
}

fn welcome() -> Action<Vec<u8>> {
    Action::Respond(Reply { status: 200, kind: BodyKind::Html, body: WELCOME.to_string() })
}

fn not_found() -> Action<Vec<u8>> {
    Action::Respond(Reply { status: 404, kind: BodyKind::PlainText, body: "Not Found".to_string() })
}

#[test]
fn request_without_host_gets_the_welcome_page() {
    assert_eq!(handle(request(HostHeader::Absent, "/foo", Some("x=1")), &table()), welcome());
    assert_eq!(handle(request(HostHeader::Absent, "/", None), &table()), welcome());
    assert_eq!(handle(request(HostHeader::Absent, "", None), &table()), welcome());
}

#[test]
fn request_with_empty_host_gets_the_welcome_page() {
    assert_eq!(handle(request(named(""), "/foo", Some("x=1")), &table()), welcome());
    assert_eq!(handle(request(named(""), "/", None), &table()), welcome());
}

#[test]
fn root_path_gets_the_welcome_page_also_for_a_known_host() {
    assert_eq!(handle(request(named("example.com"), "/", None), &table()), welcome());
    assert_eq!(handle(request(named("example.com"), "/", Some("x=1")), &table()), welcome());
    assert_eq!(handle(request(named("unknown.test"), "/", None), &table()), welcome());
}

#[test]
fn known_host_is_forwarded_to_its_upstream() {
    let action = handle(request(named("example.com"), "/foo", Some("x=1")), &table());
    assert_eq!(
        action,
        Action::Forward(OutboundRequest {
            method: "POST".to_string(),
            uri: "127.0.0.1:9000/foo?x=1".to_string(),
            body: vec![1, 2, 3],
        })
    );
}

#[test]
fn forwarded_request_keeps_method_and_body() {
    let inbound = InboundRequest {
        method: "DELETE".to_string(),
        path: "/a/b".to_string(),
        query: None,
        host: named("other.test"),
        body: "payload".to_string(),
    };
    assert_eq!(
        handle(inbound, &table()),
        Action::Forward(OutboundRequest {
            method: "DELETE".to_string(),
            uri: "10.0.0.2:80/a/b".to_string(),
            body: "payload".to_string(),
        })
    );
}

#[test]
fn paths_other_than_the_root_are_forwarded() {
    for (path, query, uri) in [
        ("//", None, "127.0.0.1:9000//"),
        ("/index.html", None, "127.0.0.1:9000/index.html"),
        ("", None, "127.0.0.1:9000"),
        ("/foo", Some(""), "127.0.0.1:9000/foo?"),
        ("/foo", Some("a=b&c=d?e"), "127.0.0.1:9000/foo?a=b&c=d?e"),
        ("*", None, "127.0.0.1:9000*"),
    ] {
        match handle(request(named("example.com"), path, query), &table()) {
            Action::Forward(out) => assert_eq!(out.uri, uri),
            other => panic!("{:?} {:?}: {:?}", path, query, other),
        }
    }
}

#[test]
fn unknown_host_gets_not_found() {
    assert_eq!(handle(request(named("unknown.test"), "/foo", Some("x=1")), &table()), not_found());
    assert_eq!(handle(request(named("Example.com"), "/foo", None), &table()), not_found());
    assert_eq!(handle(request(named("example.com:80"), "/foo", None), &table()), not_found());
    assert_eq!(handle(request(named("a"), "/foo", None), &RoutingTable::build(vec![])), not_found());
}

#[test]
fn unreadable_host_is_a_bad_request() {
    let bad = Action::Respond(Reply {
        status: 400,
        kind: BodyKind::PlainText,
        body: "Bad Request".to_string(),
    });
    assert_eq!(handle(request(HostHeader::Unreadable, "/foo", None), &table()), bad);
    assert_eq!(handle(request(HostHeader::Unreadable, "/", None), &table()), bad);
}

#[test]
fn upstream_failure_becomes_bad_gateway() {
    let outcome: Result<Vec<u8>, String> = Err("connection refused".to_string());
    assert_eq!(
        conclude(outcome),
        Completion::Local(Reply {
            status: 502,
            kind: BodyKind::PlainText,
            body: "Bad Gateway".to_string(),
        })
    );
    let timed_out: Result<u8, ()> = Err(());
    assert_eq!(conclude(timed_out), Completion::Local(bad_gateway_reply()));
}

#[test]
fn upstream_response_passes_through() {
    let outcome: Result<Vec<u8>, String> = Ok(vec![9, 8, 7]);
    assert_eq!(conclude(outcome), Completion::Upstream(vec![9, 8, 7]));
    let empty: Result<(u16, String), ()> = Ok((500, "upstream says no".to_string()));
    assert_eq!(conclude(empty), Completion::Upstream((500, "upstream says no".to_string())));
}

#[test]
fn after_a_failure_the_next_request_is_served() {
    let table = table();
    let first: Result<u8, String> = Err("reset".to_string());
    assert_eq!(conclude(first), Completion::Local(bad_gateway_reply()));
    match handle(request(named("example.com"), "/next", None), &table) {
        Action::Forward(out) => assert_eq!(out.uri, "127.0.0.1:9000/next"),
        other => panic!("{:?}", other),
    }
    let second: Result<u8, String> = Ok(1);
    assert_eq!(conclude(second), Completion::Upstream(1));
}

#[test]
fn the_replies_are_fixed() {
    assert_eq!(
        welcome_reply(),
        Reply { status: 200, kind: BodyKind::Html, body: WELCOME.to_string() }
    );
    assert_eq!(
        bad_request_reply(),
        Reply { status: 400, kind: BodyKind::PlainText, body: "Bad Request".to_string() }
    );
    assert_eq!(
        not_found_reply(),
        Reply { status: 404, kind: BodyKind::PlainText, body: "Not Found".to_string() }
    );
    assert_eq!(
        bad_gateway_reply(),
        Reply { status: 502, kind: BodyKind::PlainText, body: "Bad Gateway".to_string() }
    );
}

#[test]
fn is_root_knows_one_path() {
    assert!(is_root("/"));
    assert!(!is_root(""));
    assert!(!is_root("//"));
    assert!(!is_root("/a"));
    assert!(!is_root("\\"));
    assert!(!is_root(" /"));
    assert!(!is_root("\u{2215}"));
}

#[test]
fn outbound_uri_joins_upstream_path_and_query() {
    assert_eq!(outbound_uri("127.0.0.1:9000", "/foo", &Some("x=1".to_string())), "127.0.0.1:9000/foo?x=1");
    assert_eq!(outbound_uri("127.0.0.1:9000", "/foo", &None), "127.0.0.1:9000/foo");
    assert_eq!(outbound_uri("u", "", &Some(String::new())), "u?");
    assert_eq!(outbound_uri("", "", &None), "");
    assert_eq!(outbound_uri("h\u{e9}", "/\u{4f8b}", &Some("\u{661}".to_string())), "h\u{e9}/\u{4f8b}?\u{661}");
}

#[test]
fn a_configuration_routes_requests() {
    let text = "server {\n    servername example.com;\n    port 8080;\n    proxy_pass 127.0.0.1:9000;\n}\n";
    let (entries, _) = parse_config(text).unwrap();
    let table = RoutingTable::build(entries);
    match handle(request(named("example.com"), "/foo", Some("x=1")), &table) {
        Action::Forward(out) => assert_eq!(out.uri, "127.0.0.1:9000/foo?x=1"),
        other => panic!("{:?}", other),
    }
    assert_eq!(handle(request(named("example.org"), "/foo", None), &table), not_found());
}
