use mockerino::dispatch::{next_action, Action, Event, ReplyBody};
use mockerino::request::{Request, RequestWithMetadata};
use mockerino::router::{add_routes, RouteTable};

fn definition(
    method: &str,
    raw: Option<&str>,
    file: Option<&str>,
    status: Option<u16>,
    sleep: Option<u64>,
) -> Request {
    Request {
        description: "d".to_string(),
        method: method.to_string(),
        headers: Some(vec![("x-mock".to_string(), "yes".to_string())]),
        raw_body: raw.map(|s| s.to_string()),
        status_code: status,
        file: file.map(|s| s.to_string()),
        sleep,
    }
}

fn table(defs: Vec<(Request, &str)>) -> RouteTable {
    let routes =
        defs.into_iter().map(|(d, p)| RequestWithMetadata::new(d, p.to_string())).collect();
    add_routes(RouteTable::new(), routes).unwrap()
}

#[test]
fn hello_route_replies_201_hi() {
    let t = table(vec![(definition("GET", Some("hi"), None, Some(201), None), "/hello/")]);
    let h = t.resolve("GET", "/hello/").unwrap();
    assert_eq!(
        next_action(h, Event::Arrived),
        Action::Reply {
            status: 201,
            headers: vec![("x-mock".to_string(), "yes".to_string())],
            body: ReplyBody::Text("hi".to_string()),
        }
    );
}

#[test]
fn sleep_comes_before_reply() {
    let t = table(vec![(definition("GET", Some("late"), None, None, Some(50)), "/slow/")]);
    let h = t.resolve("GET", "/slow/").unwrap();
    assert_eq!(next_action(h, Event::Arrived), Action::Wait(50));
    assert_eq!(
        next_action(h, Event::Slept),
        Action::Reply {
            status: 200,
            headers: vec![("x-mock".to_string(), "yes".to_string())],
            body: ReplyBody::Text("late".to_string()),
        }
    );
}

#[test]
fn sleep_comes_before_file_open() {
    let t = table(vec![(definition("GET", None, Some("data.json"), None, Some(50)), "/f/")]);
    let h = t.resolve("GET", "/f/").unwrap();
    assert_eq!(next_action(h, Event::Arrived), Action::Wait(50));
    assert_eq!(next_action(h, Event::Slept), Action::OpenFile("data.json".to_string()));
}

#[test]
fn opened_file_is_streamed() {
    let t = table(vec![(definition("GET", None, Some("data.json"), Some(202), None), "/f/")]);
    let h = t.resolve("GET", "/f/").unwrap();
    assert_eq!(next_action(h, Event::Arrived), Action::OpenFile("data.json".to_string()));
    assert_eq!(
        next_action(h, Event::FileOpened),
        Action::Reply {
            status: 202,
            headers: vec![("x-mock".to_string(), "yes".to_string())],
            body: ReplyBody::FileStream,
        }
    );
}

#[test]
fn missing_file_fails_only_that_request() {
    let t = table(vec![
        (definition("GET", None, Some("gone.json"), None, None), "/gone/"),
        (definition("GET", Some("ok"), None, None, None), "/ok/"),
    ]);
    let gone = t.resolve("GET", "/gone/").unwrap();
    assert_eq!(
        next_action(gone, Event::FileMissing),
        Action::Reply { status: 500, headers: vec![], body: ReplyBody::Empty }
    );
    let ok = t.resolve("GET", "/ok/").unwrap();
    assert_eq!(
        next_action(ok, Event::Arrived),
        Action::Reply {
            status: 200,
            headers: vec![("x-mock".to_string(), "yes".to_string())],
            body: ReplyBody::Text("ok".to_string()),
        }
    );
}
