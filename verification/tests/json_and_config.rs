use hookline::config::{ChannelConfig, Config, EndpointConfig, ServerConfig, SettingValue};
use hookline::json::{extract_field, json_path_extract, json_response, JsonValue};
use hookline::query::urlencoded_params;

fn s(v: &str) -> JsonValue {
    JsonValue::Str(v.to_string())
}

fn obj(fields: Vec<(&str, JsonValue)>) -> JsonValue {
    JsonValue::Object(fields.into_iter().map(|(k, v)| (k.to_string(), v)).collect())
}

fn github_payload() -> JsonValue {
    obj(vec![
        ("ref", s("refs/heads/main")),
        ("head_commit", obj(vec![("message", s("fix: update config")), ("id", JsonValue::Number)])),
        ("body", s("deployed")),
        ("level", s("error")),
        ("list", JsonValue::Array(vec![s("x")])),
    ])
}

#[test]
fn json_path_extract_follows_keys() {
    let json = github_payload();
    assert_eq!(json_path_extract(&json, ".head_commit.message"), Some("fix: update config".to_string()));
    assert_eq!(json_path_extract(&json, ".body"), Some("deployed".to_string()));
}

#[test]
fn json_path_extract_needs_leading_dot() {
    let json = github_payload();
    assert_eq!(json_path_extract(&json, "body"), None);
    assert_eq!(json_path_extract(&json, ""), None);
}

#[test]
fn json_path_extract_misses() {
    let json = github_payload();
    assert_eq!(json_path_extract(&json, ".head_commit"), None);
    assert_eq!(json_path_extract(&json, ".head_commit.id"), None);
    assert_eq!(json_path_extract(&json, ".nothing.here"), None);
    assert_eq!(json_path_extract(&json, ".list.0"), None);
    assert_eq!(json_path_extract(&json, "."), None);
    assert_eq!(json_path_extract(&s("text"), ".a"), None);
}

#[test]
fn json_get_last_field_of_a_name() {
    let json = obj(vec![("a", s("1")), ("a", s("2"))]);
    assert_eq!(json.get("a").and_then(|v| v.as_str()), Some("2"));
    assert!(json.get("b").is_none());
    assert!(JsonValue::Array(vec![]).get("a").is_none());
}

#[test]
fn extract_field_path_parameter_wins() {
    let json = github_payload();
    let q = urlencoded_params("title=direct&title_path=.head_commit.message");
    assert_eq!(
        extract_field(&q, Some(&json), "title", "title_path"),
        Some("fix: update config".to_string())
    );
}

#[test]
fn extract_field_path_without_body_gives_nothing() {
    let q = urlencoded_params("title=direct&title_path=.x");
    assert_eq!(extract_field(&q, None, "title", "title_path"), None);
}

#[test]
fn extract_field_direct_then_body() {
    let json = obj(vec![("title", s("from body")), ("message", JsonValue::Bool(true))]);
    let q = urlencoded_params("title=from+query");
    assert_eq!(extract_field(&q, Some(&json), "title", "title_path"), Some("from query".to_string()));
    let q = urlencoded_params("");
    assert_eq!(extract_field(&q, Some(&json), "title", "title_path"), Some("from body".to_string()));
    assert_eq!(extract_field(&q, Some(&json), "message", "message_path"), None);
    assert_eq!(extract_field(&q, None, "title", "title_path"), None);
}

#[test]
fn json_response_writes_both_fields() {
    assert_eq!(json_response("ok", "notification sent"), r#"{"status":"ok","message":"notification sent"}"#);
    assert_eq!(json_response("", ""), r#"{"status":"","message":""}"#);
}

fn channel(name: &str, kind: &str) -> ChannelConfig {
    ChannelConfig { name: name.to_string(), channel_type: kind.to_string(), extra: vec![] }
}

fn endpoint(path: &str, channels: &[&str]) -> EndpointConfig {
    EndpointConfig {
        path: path.to_string(),
        token: None,
        channels: channels.iter().map(|c| c.to_string()).collect(),
    }
}

fn config(channels: Vec<ChannelConfig>, endpoints: Vec<EndpointConfig>) -> Config {
    Config { server: ServerConfig { host: "0.0.0.0".to_string(), port: 8080 }, channels, endpoints }
}

#[test]
fn validate_accepts_known_channels() {
    let cfg = config(
        vec![channel("ops-email", "email"), channel("dev-discord", "discord")],
        vec![endpoint("/alert/ci", &["dev-discord", "ops-email"]), endpoint("/alert/monitor", &["ops-email"])],
    );
    assert_eq!(cfg.validate(), Ok(()));
    assert_eq!(config(vec![], vec![endpoint("/none", &[])]).validate(), Ok(()));
}

#[test]
fn validate_reports_first_unknown_channel() {
    let cfg = config(
        vec![channel("ops-email", "email")],
        vec![
            endpoint("/ok", &["ops-email"]),
            endpoint("/bad", &["ops-email", "nope", "also-nope"]),
            endpoint("/worse", &["x"]),
        ],
    );
    assert_eq!(cfg.validate(), Err("endpoint '/bad': unknown channel 'nope'".to_string()));
}

#[test]
fn setting_value_variants_exist() {
    let extra = vec![
        ("a".to_string(), SettingValue::Text("t".to_string())),
        ("b".to_string(), SettingValue::Unsigned(5)),
        ("c".to_string(), SettingValue::Other),
    ];
    assert_eq!(hookline::channels::get_string(&extra, "a"), Some("t".to_string()));
    assert_eq!(hookline::channels::get_string(&extra, "b"), None);
    assert_eq!(hookline::channels::get_u16(&extra, "b"), Some(5));
    assert_eq!(hookline::channels::get_u16(&extra, "c"), None);
    assert_eq!(hookline::channels::get_u16(&extra, "zz"), None);
}

#[test]
fn json_response_escapes_texts() {
    let status = "partial_failure";
    let message = "ch: \"quoted\" \\ back\nline\u{1}";
    let reply = json_response(status, message);
    let parsed: serde_json::Value = serde_json::from_str(&reply).unwrap();
    assert_eq!(parsed.get("status").and_then(|v| v.as_str()), Some(status));
    assert_eq!(parsed.get("message").and_then(|v| v.as_str()), Some(message));
    assert_eq!(json_response("a\"b", "c"), r#"{"status":"a\"b","message":"c"}"#);
}
