use mockerino::request::{Request, RequestWithMetadata};
use mockerino::router::{
    add_routes, compile_route, response_headers, response_status, BodySource, InvalidMethod,
    RouteTable,
};

fn route(method: &str, path: &str, raw: Option<&str>, file: Option<&str>) -> RequestWithMetadata {
    RequestWithMetadata::new(
        Request {
            description: "d".to_string(),
            method: method.to_string(),
            headers: None,
            raw_body: raw.map(|s| s.to_string()),
            status_code: None,
            file: file.map(|s| s.to_string()),
            sleep: None,
        },
        path.to_string(),
    )
}

#[test]
fn getters_default_when_absent() {
    let r = route("GET", "/a/", None, None);
    assert_eq!(r.sleep(), 0);
    assert_eq!(r.status_code(), None);
    assert!(r.headers().is_empty());
    assert_eq!(r.raw_body(), None);
    assert_eq!(r.file(), None);
}

#[test]
fn status_defaults_and_range() {
    assert_eq!(response_status(None), 200);
    assert_eq!(response_status(Some(201)), 201);
    assert_eq!(response_status(Some(999)), 999);
    assert_eq!(response_status(Some(99)), 200);
    assert_eq!(response_status(Some(1000)), 200);
}

#[test]
fn invalid_headers_dropped() {
    let h = vec![
        ("Content-Type".to_string(), "text/plain".to_string()),
        ("bad name".to_string(), "x".to_string()),
        ("x-tab".to_string(), "a\tb".to_string()),
        ("x-newline".to_string(), "a\nb".to_string()),
        ("x-del".to_string(), "a\u{7f}".to_string()),
    ];
    let kept = response_headers(&h);
    assert_eq!(
        kept,
        vec![
            ("Content-Type".to_string(), "text/plain".to_string()),
            ("x-tab".to_string(), "a\tb".to_string()),
        ]
    );
}

#[test]
fn raw_body_preferred_over_file() {
    let r = compile_route(&route("GET", "/a/", Some("hi"), Some("f.json"))).unwrap();
    assert_eq!(r.handler.body, BodySource::Raw("hi".to_string()));
    let r = compile_route(&route("GET", "/a/", None, Some("f.json"))).unwrap();
    assert_eq!(r.handler.body, BodySource::File("f.json".to_string()));
}

#[test]
fn missing_body_source_gives_no_route() {
    assert!(compile_route(&route("GET", "/a/", None, None)).is_none());
    let t = add_routes(RouteTable::new(), vec![route("GET", "/a/", None, None)]).unwrap();
    assert!(t.routes().is_empty());
    assert!(t.resolve("GET", "/a/").is_none());
}

#[test]
fn invalid_method_fails_compilation() {
    let r = add_routes(
        RouteTable::new(),
        vec![route("GET", "/a/", Some("x"), None), route("BAD METHOD", "/b/", Some("x"), None)],
    );
    assert_eq!(r.err(), Some(InvalidMethod { method: "BAD METHOD".to_string() }));
    let r = add_routes(RouteTable::new(), vec![route("", "/b/", Some("x"), None)]);
    assert!(r.is_err());
}

#[test]
fn invalid_method_without_body_is_ignored() {
    let t = add_routes(RouteTable::new(), vec![route("BAD METHOD", "/b/", None, None)]).unwrap();
    assert!(t.routes().is_empty());
}

#[test]
fn later_definition_wins_on_collision() {
    let t = add_routes(
        RouteTable::new(),
        vec![route("GET", "/a/", Some("first"), None), route("GET", "/a/", Some("second"), None)],
    )
    .unwrap();
    assert_eq!(t.routes().len(), 2);
    let h = t.resolve("GET", "/a/").unwrap();
    assert_eq!(h.body, BodySource::Raw("second".to_string()));
    let t = add_routes(t, vec![route("GET", "/a/", Some("third"), None)]).unwrap();
    assert_eq!(t.resolve("GET", "/a/").unwrap().body, BodySource::Raw("third".to_string()));
}

#[test]
fn lookup_is_exact_on_method_and_path() {
    let t = add_routes(RouteTable::new(), vec![route("GET", "/hello/", Some("hi"), None)]).unwrap();
    assert!(t.resolve("GET", "/hello/").is_some());
    assert!(t.resolve("POST", "/hello/").is_none());
    assert!(t.resolve("GET", "/hello").is_none());
    assert!(t.resolve("GET", "/hello/x/").is_none());
}

#[test]
fn method_characters_follow_token_table() {
    let ok = add_routes(RouteTable::new(), vec![route("wOw!!", "/a/", Some("x"), None)]);
    assert!(ok.is_ok());
    let hash = add_routes(RouteTable::new(), vec![route("GE#T", "/a/", Some("x"), None)]);
    assert_eq!(hash.err(), Some(InvalidMethod { method: "GE#T".to_string() }));
    let first = add_routes(
        RouteTable::new(),
        vec![route("A B", "/a/", Some("x"), None), route("C D", "/b/", Some("x"), None)],
    );
    assert_eq!(first.err(), Some(InvalidMethod { method: "A B".to_string() }));
}

#[test]
fn header_name_characters_follow_table() {
    let h = vec![
        ("x-#tag".to_string(), "1".to_string()),
        ("x(paren)".to_string(), "2".to_string()),
        ("".to_string(), "3".to_string()),
        ("é".to_string(), "4".to_string()),
        ("X-Upper".to_string(), "caf\u{e9}".to_string()),
    ];
    assert_eq!(
        response_headers(&h),
        vec![
            ("x-#tag".to_string(), "1".to_string()),
            ("X-Upper".to_string(), "caf\u{e9}".to_string()),
        ]
    );
}
