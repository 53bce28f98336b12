use mrms_pull::codec::{load_config, parse_config, render_config, ConfigError};
use mrms_pull::config::{default_config, Config};

#[test]
fn default_values() {
    let c = default_config();
    assert_eq!(c.server, "127.0.0.1");
    assert_eq!(c.port, 11111);
    assert_eq!(c.version, "");
    assert_eq!(c.dir, ".");
    assert_eq!(c.project, "project_name");
    assert_eq!(c.profile, "__default__");
    assert_eq!(c.auth, "your_auth_code");
}

#[test]
fn init_then_load_yields_defaults() {
    let text = render_config(&default_config());
    let loaded = load_config(Some(&text)).expect("the initializer's file must load");
    assert_eq!(loaded.server, "127.0.0.1");
    assert_eq!(loaded.port, 11111);
    assert_eq!(loaded.version, "");
    assert_eq!(loaded.dir, ".");
    assert_eq!(loaded.project, "project_name");
    assert_eq!(loaded.profile, "__default__");
    assert_eq!(loaded.auth, "your_auth_code");
}

#[test]
fn init_load_round_trip_is_idempotent() {
    let first = render_config(&default_config());
    let loaded = load_config(Some(&first)).expect("load");
    let second = render_config(&loaded);
    assert_eq!(first, second);
    let again = load_config(Some(&second)).expect("load again");
    assert_eq!(again.server, loaded.server);
    assert_eq!(again.port, loaded.port);
    assert_eq!(again.version, loaded.version);
    assert_eq!(again.dir, loaded.dir);
    assert_eq!(again.project, loaded.project);
    assert_eq!(again.profile, loaded.profile);
    assert_eq!(again.auth, loaded.auth);
}

#[test]
fn missing_file_reports_not_found() {
    assert!(matches!(load_config(None), Err(ConfigError::NotFound)));
}

#[test]
fn invalid_text_reports_format_error() {
    assert!(matches!(load_config(Some("this is not a config")), Err(ConfigError::Format)));
    assert!(matches!(load_config(Some("")), Err(ConfigError::Format)));
    assert!(matches!(load_config(Some("{")), Err(ConfigError::Format)));
    assert!(matches!(load_config(Some("{}")), Err(ConfigError::Format)));
}

#[test]
fn port_must_fit() {
    let c = Config {
        server: "h".to_string(),
        port: 4294967295,
        version: "".to_string(),
        dir: ".".to_string(),
        project: "p".to_string(),
        profile: "d".to_string(),
        auth: "a".to_string(),
    };
    let text = render_config(&c);
    assert_eq!(load_config(Some(&text)).expect("load").port, 4294967295);
    let over = text.replace("4294967295", "4294967296");
    assert!(matches!(load_config(Some(&over)), Err(ConfigError::Format)));
}

#[test]
fn escaped_fields_round_trip() {
    let c = Config {
        server: "10.0.0.1".to_string(),
        port: 80,
        version: "v\"1\"".to_string(),
        dir: "C:\\releases".to_string(),
        project: "line\nbreak\ttab".to_string(),
        profile: "__default__".to_string(),
        auth: "t0k3n".to_string(),
    };
    let text = render_config(&c);
    let loaded = load_config(Some(&text)).expect("load");
    assert_eq!(loaded.version, "v\"1\"");
    assert_eq!(loaded.dir, "C:\\releases");
    assert_eq!(loaded.project, "line\nbreak\ttab");
}

#[test]
fn rendered_text_is_json_that_serde_accepts() {
    let text = render_config(&default_config());
    let v: serde_json::Value = serde_json::from_str(&text).expect("valid JSON");
    assert_eq!(v["server"], serde_json::Value::String("127.0.0.1".to_string()));
    assert_eq!(v["port"], serde_json::Value::Number(serde_json::Number::from(11111u32)));
    assert_eq!(v["profile"], serde_json::Value::String("__default__".to_string()));
    assert_eq!(v["auth"], serde_json::Value::String("your_auth_code".to_string()));
}

#[test]
fn parse_config_accepts_reordered_whitespace_only() {
    let text = "  {\n\"server\": \"s\" , \"port\" :1,\n\"version\": \"\", \"dir\": \".\", \"project\": \"p\", \"profile\": \"d\", \"auth\": \"a\"\n}  ";
    let c = parse_config(text).expect("whitespace is free");
    assert_eq!(c.server, "s");
    assert_eq!(c.port, 1);
}
