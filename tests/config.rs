use mockerino::config::Config;

#[test]
fn test_load_config() {}

#[test]
fn config_getters_return_fields() {
    let c = Config::new(8080, 2, "DEBUG".to_string(), "files".to_string());
    assert_eq!(c.port(), 8080);
    assert_eq!(c.max_threads(), 2);
    assert_eq!(c.log_level(), "DEBUG");
    assert_eq!(c.base_dir(), "files");
}

#[test]
fn boilerplate_url_joins_base_and_path() {
    let u = mockerino::boilerplate::boilerplate_url("spec/root.yaml");
    assert_eq!(
        u,
        "https://raw.githubusercontent.com/metamemelord/Mockerino/feature/core/boilerplate/spec/root.yaml"
    );
}
