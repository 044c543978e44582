use mockerino::endpoint::{Endpoint, Spec};
use mockerino::request::Request;
use mockerino::spec_parser::{
    derive_path, dynamic_segment, is_spec_file, parse, process_file, SpecSource, UnsupportedKind,
};

fn definition(method: &str, raw: Option<&str>) -> Request {
    Request {
        description: "d".to_string(),
        method: method.to_string(),
        headers: None,
        raw_body: raw.map(|s| s.to_string()),
        status_code: None,
        file: None,
        sleep: None,
    }
}

fn endpoint(kind: &str, methods: &[&str]) -> Endpoint {
    Endpoint {
        api_version: "v1".to_string(),
        kind: kind.to_string(),
        spec: Spec { requests: methods.iter().map(|m| definition(m, Some("x"))).collect() },
    }
}

#[test]
fn derive_root_file_of_directory() {
    assert_eq!(derive_path("/base", "/base/users/root.yaml"), "/users/");
}

#[test]
fn derive_named_file() {
    assert_eq!(derive_path("/base", "/base/users/list.yaml"), "/users/list/");
}

#[test]
fn derive_top_root_file() {
    assert_eq!(derive_path("/base", "/base/root.yaml"), "/");
}

#[test]
fn derive_yml_and_trailing_base_slash() {
    assert_eq!(derive_path("/base/", "/base/hello/world.yml"), "/hello/world/");
    assert_eq!(derive_path("/base", "/base/xroot.yaml"), "/xroot/");
}

#[test]
fn derive_from_derived_prefix_is_stable() {
    let p = derive_path("/base", "/base/users/list.yaml");
    let again = derive_path("/base", &format!("/base{}root.yaml", p));
    assert_eq!(again, p);
    let child = derive_path("/base", &format!("/base{}item.yaml", p));
    assert_eq!(child, "/users/list/item/");
    assert_eq!(derive_path("/base", "/base/users/list.yaml"), p);
}

#[test]
fn spec_files_by_extension() {
    assert!(is_spec_file("a/b.yaml"));
    assert!(is_spec_file("a/b.yml"));
    assert!(!is_spec_file("a/b.json"));
    assert!(!is_spec_file("yaml"));
}

#[test]
fn dynamic_segments_detected() {
    assert!(dynamic_segment("/users/_id/"));
    assert!(dynamic_segment("/users/_42/"));
    assert!(!dynamic_segment("/users/id_/"));
    assert!(!dynamic_segment("/users/_/"));
    assert!(!dynamic_segment("/users/"));
}

#[test]
fn process_file_one_entry_per_definition() {
    let v = process_file("/base", "/base/users/root.yaml", endpoint("Endpoint", &["GET", "POST"]))
        .unwrap();
    assert_eq!(v.len(), 2);
    assert_eq!(v[0].method(), "GET");
    assert_eq!(v[1].method(), "POST");
    assert_eq!(v[0].path(), "/users/");
    assert_eq!(v[1].path(), "/users/");
}

#[test]
fn process_file_dynamic_path_kept_literally() {
    let v = process_file("/base", "/base/users/_id/root.yaml", endpoint("Endpoint", &["GET"]))
        .unwrap();
    assert_eq!(v.len(), 1);
    assert_eq!(v[0].path(), "/users/_id/");
}

#[test]
fn process_file_refuses_unknown_kind() {
    let r = process_file("/base", "/base/a.yaml", endpoint("Other", &["GET"]));
    assert_eq!(r.err(), Some(UnsupportedKind { kind: "Other".to_string() }));
}

#[test]
fn parse_skips_bad_files_and_keeps_order() {
    let files = vec![
        SpecSource { path: "/base/a.yaml".to_string(), endpoint: Some(endpoint("Endpoint", &["GET"])) },
        SpecSource { path: "/base/broken.yaml".to_string(), endpoint: None },
        SpecSource { path: "/base/c.yaml".to_string(), endpoint: Some(endpoint("Other", &["GET"])) },
        SpecSource {
            path: "/base/b/root.yml".to_string(),
            endpoint: Some(endpoint("Endpoint", &["PUT", "DELETE"])),
        },
    ];
    let v = parse("/base/", files);
    let got: Vec<(String, String)> =
        v.iter().map(|e| (e.method().to_string(), e.path().to_string())).collect();
    assert_eq!(
        got,
        vec![
            ("GET".to_string(), "/a/".to_string()),
            ("PUT".to_string(), "/b/".to_string()),
            ("DELETE".to_string(), "/b/".to_string()),
        ]
    );
}

#[test]
fn parse_of_nothing_is_empty() {
    assert!(parse("/base", Vec::new()).is_empty());
}
