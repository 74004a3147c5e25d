use hookline::channels::{
    decimal_text, discord_payload, discord_status_result, email_draft, email_mailboxes, frame_discord_payload,
    get_u16, plan_channel, ChannelPlan, SkipReason,
};
use hookline::config::{ChannelConfig, EndpointConfig, SettingValue};
use hookline::handler::{dispatch_targets, plan_request, request_body_json, request_body_text, send_report, strip_bearer, RequestPlan};
use hookline::json::JsonValue;
use hookline::notification::{level_style, Notification};

fn note(title: &str, message: &str, level: &str) -> Notification {
    Notification {
        title: title.to_string(),
        message: message.to_string(),
        to: None,
        from: None,
        level: level.to_string(),
    }
}

#[test]
fn level_style_error() {
    let s = level_style("error");
    assert_eq!((s.label, s.emoji, s.color, s.hex_color), ("ERROR", "❌", 0xE74C3C, "#E74C3C"));
}

#[test]
fn level_style_info() {
    let s = level_style("info");
    assert_eq!((s.label, s.emoji, s.color, s.hex_color), ("INFO", "✅", 0x2ECC71, "#2ECC71"));
}

#[test]
fn level_style_warn_and_unknown() {
    let s = level_style("warn");
    assert_eq!((s.label, s.emoji, s.color, s.hex_color), ("WARN", "⚠️", 0xF1C40F, "#F1C40F"));
    let s = level_style("ERROR");
    assert_eq!((s.label, s.color), ("WARN", 0xF1C40F));
    let s = level_style("");
    assert_eq!(s.label, "WARN");
}

fn text(k: &str, v: &str) -> (String, SettingValue) {
    (k.to_string(), SettingValue::Text(v.to_string()))
}

fn cfg(kind: &str, extra: Vec<(String, SettingValue)>) -> ChannelConfig {
    ChannelConfig { name: "ch".to_string(), channel_type: kind.to_string(), extra }
}

#[test]
fn plan_email_with_defaults() {
    let c = cfg("email", vec![text("smtp_host", "smtp.example.com"), text("from", "a@x.com"), text("to", "b@y.com")]);
    match plan_channel(&c) {
        ChannelPlan::Email(s) => {
            assert_eq!(s.name, "ch");
            assert_eq!(s.smtp_host, "smtp.example.com");
            assert_eq!(s.smtp_port, 587);
            assert_eq!(s.username, "");
            assert_eq!(s.password, "");
            assert_eq!(s.from, "a@x.com");
            assert_eq!(s.to, "b@y.com");
            assert_eq!(s.format, "text");
        }
        _ => panic!("expected an email plan"),
    }
}

#[test]
fn plan_email_with_settings() {
    let c = cfg(
        "email",
        vec![
            text("smtp_host", "h"),
            ("smtp_port".to_string(), SettingValue::Unsigned(70000)),
            text("username", "u"),
            text("password", "p"),
            text("from", "f"),
            text("to", "t"),
            text("format", "html"),
        ],
    );
    match plan_channel(&c) {
        ChannelPlan::Email(s) => {
            assert_eq!(s.smtp_port, 4464);
            assert_eq!((s.username.as_str(), s.password.as_str(), s.format.as_str()), ("u", "p", "html"));
        }
        _ => panic!("expected an email plan"),
    }
}

fn missing(plan: ChannelPlan) -> Option<String> {
    match plan {
        ChannelPlan::Skip(SkipReason::MissingSetting(k)) => Some(k),
        _ => None,
    }
}

#[test]
fn plan_email_missing_settings_in_order() {
    assert_eq!(missing(plan_channel(&cfg("email", vec![]))), Some("smtp_host".to_string()));
    assert_eq!(missing(plan_channel(&cfg("email", vec![text("smtp_host", "h")]))), Some("from".to_string()));
    assert_eq!(
        missing(plan_channel(&cfg("email", vec![text("smtp_host", "h"), text("from", "f")]))),
        Some("to".to_string())
    );
    let c = cfg(
        "email",
        vec![("smtp_host".to_string(), SettingValue::Unsigned(1)), text("from", "f"), text("to", "t")],
    );
    assert_eq!(missing(plan_channel(&c)), Some("smtp_host".to_string()));
}

#[test]
fn plan_discord() {
    match plan_channel(&cfg("discord", vec![text("webhook_url", "https://discord.com/api/webhooks/1")])) {
        ChannelPlan::Discord { name, webhook_url } => {
            assert_eq!(name, "ch");
            assert_eq!(webhook_url, "https://discord.com/api/webhooks/1");
        }
        _ => panic!("expected a discord plan"),
    }
    assert_eq!(missing(plan_channel(&cfg("discord", vec![]))), Some("webhook_url".to_string()));
}

#[test]
fn plan_telegram_and_unknown() {
    assert!(matches!(plan_channel(&cfg("telegram", vec![])), ChannelPlan::Skip(SkipReason::NotImplemented)));
    assert!(matches!(plan_channel(&cfg("slack", vec![])), ChannelPlan::Skip(SkipReason::UnknownType)));
    assert!(matches!(plan_channel(&cfg("Email", vec![])), ChannelPlan::Skip(SkipReason::UnknownType)));
}

#[test]
fn get_u16_truncates() {
    let extra = vec![("p".to_string(), SettingValue::Unsigned(65536 + 25))];
    assert_eq!(get_u16(&extra, "p"), Some(25));
}

#[test]
fn email_draft_uses_channel_defaults() {
    let n = note("Build Failed", "Pipeline #123 failed", "error");
    let d = email_draft("bot@x.com", "ops@y.com", "html", &n);
    assert!(d.html);
    assert_eq!(d.from, "bot@x.com");
    assert_eq!(d.to, "ops@y.com");
    assert_eq!(d.subject, "❌ [ERROR] Build Failed");
    assert_eq!(
        d.body,
        "<span style=\"display:inline-block;padding:2px 8px;border-radius:3px;background:#E74C3C;color:#fff;font-weight:bold;font-size:12px\">❌ ERROR</span>\n\nPipeline #123 failed"
    );
}

#[test]
fn email_draft_notification_overrides_addresses() {
    let mut n = note("t", "m", "info");
    n.to = Some("me@z.com".to_string());
    n.from = Some("you@z.com".to_string());
    let d = email_draft("bot@x.com", "ops@y.com", "text", &n);
    assert_eq!((d.from.as_str(), d.to.as_str()), ("you@z.com", "me@z.com"));
    assert_eq!(d.subject, "✅ [INFO] t");
}

#[test]
fn email_draft_plain_text_for_other_formats() {
    let n = note("Build Failed", "Pipeline #123 failed", "error");
    let d = email_draft("bot@x.com", "ops@y.com", "text", &n);
    assert!(!d.html);
    assert_eq!(d.subject, "❌ [ERROR] Build Failed");
    assert_eq!(d.body, "❌ ERROR\n\nPipeline #123 failed");
    let d = email_draft("bot@x.com", "ops@y.com", "HTML", &n);
    assert!(!d.html);
    let d = email_draft("bot@x.com", "ops@y.com", "markdown", &n);
    assert!(!d.body.contains('<'));
}

#[test]
fn email_mailboxes_parse_and_report() {
    let n = note("t", "m", "warn");
    let ok = email_draft("Bot <bot@example.com>", "ops@example.org", "text", &n);
    let (from, to) = email_mailboxes(&ok).ok().unwrap();
    assert_eq!(from.name, Some("Bot".to_string()));
    assert_eq!((from.user.as_str(), from.domain.as_str()), ("bot", "example.com"));
    assert_eq!(to.name, None);
    assert_eq!((to.user.as_str(), to.domain.as_str()), ("ops", "example.org"));
    let bad_from = email_draft("not an address", "also bad", "text", &n);
    assert_eq!(email_mailboxes(&bad_from).err(), Some("Invalid input".to_string()));
    let bad_to = email_draft("bot@example.com", "nope", "text", &n);
    assert!(email_mailboxes(&bad_to).is_err());
}

#[test]
fn discord_payload_escapes_text() {
    let n = note("say \"hi\"", "line\nnext\\", "info");
    assert_eq!(
        discord_payload(&n),
        r#"{"embeds":[{"color":3066993,"description":"line\nnext\\","title":"say \"hi\""}]}"#
    );
}

#[test]
fn discord_payload_matches_serde_json() {
    let n = note("Build Failed ✅", "tab\tand\u{1}", "error");
    let mut embed = serde_json::Map::new();
    embed.insert("title".to_string(), serde_json::Value::String(n.title.clone()));
    embed.insert("description".to_string(), serde_json::Value::String(n.message.clone()));
    embed.insert("color".to_string(), serde_json::Value::from(0xE74C3Cu64));
    let mut top = serde_json::Map::new();
    top.insert("embeds".to_string(), serde_json::Value::Array(vec![serde_json::Value::Object(embed)]));
    let expected = serde_json::Value::Object(top).to_string();
    assert_eq!(discord_payload(&n), expected);
}

#[test]
fn frame_payload_and_decimal() {
    assert_eq!(
        frame_discord_payload("\"a\"", "\"b\"", 0),
        r#"{"embeds":[{"color":0,"description":"b","title":"a"}]}"#
    );
    assert_eq!(decimal_text(0), "0");
    assert_eq!(decimal_text(15844367), "15844367");
    assert_eq!(decimal_text(u64::MAX), "18446744073709551615");
}

#[test]
fn discord_status() {
    assert_eq!(discord_status_result(204, "204 No Content"), Ok(()));
    assert_eq!(discord_status_result(200, "200 OK"), Ok(()));
    assert_eq!(
        discord_status_result(404, "404 Not Found"),
        Err("discord api error: 404 Not Found".to_string())
    );
    assert!(discord_status_result(300, "300 Multiple Choices").is_err());
    assert!(discord_status_result(199, "199").is_err());
}

fn endpoints() -> Vec<EndpointConfig> {
    vec![
        EndpointConfig {
            path: "/alert/ci".to_string(),
            token: Some("secret-token-xxx".to_string()),
            channels: vec!["dev-discord".to_string(), "ops-email".to_string()],
        },
        EndpointConfig { path: "/open".to_string(), token: None, channels: vec!["ops-email".to_string()] },
        EndpointConfig { path: "/open".to_string(), token: Some("shadowed".to_string()), channels: vec![] },
    ]
}

fn respond(plan: RequestPlan) -> (u16, String) {
    match plan {
        RequestPlan::Respond { status, body } => (status, body),
        RequestPlan::Dispatch { .. } => panic!("expected a direct answer"),
    }
}

fn dispatch(plan: RequestPlan) -> (usize, Notification) {
    match plan {
        RequestPlan::Dispatch { endpoint, notification } => (endpoint, notification),
        RequestPlan::Respond { status, body } => panic!("expected dispatch, got {status} {body}"),
    }
}

#[test]
fn unknown_path_is_not_found() {
    let eps = endpoints();
    assert_eq!(
        respond(plan_request(&eps, "/nope?title=a&message=b", None, None)),
        (404, r#"{"status":"not_found","message":"endpoint not found"}"#.to_string())
    );
}

#[test]
fn missing_or_wrong_token_is_unauthorized() {
    let eps = endpoints();
    let unauthorized = (401, r#"{"status":"unauthorized","message":"invalid or missing token"}"#.to_string());
    assert_eq!(respond(plan_request(&eps, "/alert/ci?title=a&message=b", None, None)), unauthorized);
    assert_eq!(respond(plan_request(&eps, "/alert/ci?token=wrong&title=a&message=b", None, None)), unauthorized);
    assert_eq!(
        respond(plan_request(&eps, "/alert/ci?title=a&message=b", Some("Basic secret-token-xxx"), None)),
        unauthorized
    );
    // a wrong query token is not rescued by a right header
    assert_eq!(
        respond(plan_request(&eps, "/alert/ci?token=wrong&title=a&message=b", Some("Bearer secret-token-xxx"), None)),
        unauthorized
    );
}

#[test]
fn token_by_query_or_bearer_header() {
    let eps = endpoints();
    let (e, n) = dispatch(plan_request(&eps, "/alert/ci?token=secret-token-xxx&title=Build+Failed&message=Pipeline+%23123+failed", None, None));
    assert_eq!(e, 0);
    assert_eq!((n.title.as_str(), n.message.as_str(), n.level.as_str()), ("Build Failed", "Pipeline #123 failed", "info"));
    let (e, _) = dispatch(plan_request(&eps, "/alert/ci?title=a&message=b", Some("Bearer secret-token-xxx"), None));
    assert_eq!(e, 0);
}

#[test]
fn first_endpoint_with_the_path_is_used() {
    let eps = endpoints();
    let (e, _) = dispatch(plan_request(&eps, "/open?title=a&message=b", None, None));
    assert_eq!(e, 1);
}

#[test]
fn missing_fields_is_bad_request() {
    let eps = endpoints();
    let bad = (400, r#"{"status":"bad_request","message":"missing required fields: title and message"}"#.to_string());
    assert_eq!(respond(plan_request(&eps, "/open?title=a", None, None)), bad);
    assert_eq!(respond(plan_request(&eps, "/open", None, None)), bad);
}

#[test]
fn notification_fields_from_query() {
    let eps = endpoints();
    let (_, n) = dispatch(plan_request(
        &eps,
        "/open?title=T&message=M&to=a%40b.com&from=c%40d.com&title_prefix=CI&level=error",
        None,
        None,
    ));
    assert_eq!(n.title, "[CI] T");
    assert_eq!(n.message, "M");
    assert_eq!(n.to, Some("a@b.com".to_string()));
    assert_eq!(n.from, Some("c@d.com".to_string()));
    assert_eq!(n.level, "error");
}

fn body() -> JsonValue {
    JsonValue::Object(vec![
        ("title".to_string(), JsonValue::Str("Body title".to_string())),
        ("message".to_string(), JsonValue::Str("Body message".to_string())),
        ("level".to_string(), JsonValue::Str("warn".to_string())),
        (
            "head_commit".to_string(),
            JsonValue::Object(vec![("message".to_string(), JsonValue::Str("fix: update config".to_string()))]),
        ),
        ("body".to_string(), JsonValue::Str("deployed".to_string())),
    ])
}

#[test]
fn notification_fields_from_body() {
    let eps = endpoints();
    let b = body();
    let (_, n) = dispatch(plan_request(&eps, "/open", None, Some(&b)));
    assert_eq!((n.title.as_str(), n.message.as_str(), n.level.as_str()), ("Body title", "Body message", "warn"));
    assert_eq!(n.to, None);
}

#[test]
fn notification_fields_from_body_paths() {
    let eps = endpoints();
    let b = body();
    let (_, n) = dispatch(plan_request(
        &eps,
        "/open?title_path=.head_commit.message&message_path=.body&title=ignored",
        None,
        Some(&b),
    ));
    assert_eq!((n.title.as_str(), n.message.as_str()), ("fix: update config", "deployed"));
    assert_eq!(
        respond(plan_request(&eps, "/open?title_path=.nope&message=m", None, Some(&b))).0,
        400
    );
}

#[test]
fn strip_bearer_prefix() {
    assert_eq!(strip_bearer("Bearer abc"), Some("abc".to_string()));
    assert_eq!(strip_bearer("Bearer "), Some(String::new()));
    assert_eq!(strip_bearer("bearer abc"), None);
    assert_eq!(strip_bearer("Bear"), None);
}

fn names(v: &[&str]) -> Vec<String> {
    v.iter().map(|s| s.to_string()).collect()
}

#[test]
fn dispatch_targets_pick_last_channel_of_a_name() {
    let wanted = names(&["dev-discord", "missing", "ops-email", "dev-discord"]);
    let built = names(&["ops-email", "dev-discord", "ops-email"]);
    assert_eq!(dispatch_targets(&wanted, &built), vec![1, 2, 1]);
    assert_eq!(dispatch_targets(&names(&[]), &built), Vec::<usize>::new());
    assert_eq!(dispatch_targets(&wanted, &names(&[])), Vec::<usize>::new());
}

#[test]
fn send_report_success_and_failure() {
    assert_eq!(send_report(&vec![]), (200, r#"{"status":"ok","message":"notification sent"}"#.to_string()));
    let failures = vec![
        ("dev-discord".to_string(), "discord api error: 404 Not Found".to_string()),
        ("ops-email".to_string(), "Invalid input".to_string()),
    ];
    assert_eq!(
        send_report(&failures),
        (
            500,
            r#"{"status":"partial_failure","message":"dev-discord: discord api error: 404 Not Found; ops-email: Invalid input"}"#
                .to_string()
        )
    );
    let one = vec![("a".to_string(), "b".to_string())];
    assert_eq!(send_report(&one).1, r#"{"status":"partial_failure","message":"a: b"}"#);
}

#[test]
fn request_body_text_reads_bytes() {
    assert_eq!(request_body_text(b""), None);
    assert_eq!(request_body_text(b"{\"a\":1}"), Some("{\"a\":1}".to_string()));
    assert_eq!(request_body_text(&[0x61, 0xFF]), Some("a\u{FFFD}".to_string()));
}

#[test]
fn request_body_json_parses_the_body() {
    assert!(request_body_json(b"").is_none());
    assert!(request_body_json(b"not json").is_none());
    let json = request_body_json(br#"{"title":"T","nested":{"message":"M"},"n":[1,2]}"#).unwrap();
    assert_eq!(json.get("title").and_then(|v| v.as_str()), Some("T"));
    assert!(json.get("n").is_some());
    let eps = endpoints();
    let (_, n) = dispatch(plan_request(&eps, "/open?message_path=.nested.message", None, Some(&json)));
    assert_eq!((n.title.as_str(), n.message.as_str()), ("T", "M"));
}

#[test]
fn level_style_hex_is_color_in_hex() {
    for level in ["error", "info", "warn", "other"] {
        let s = level_style(level);
        assert!(s.color <= 0xFFFFFF);
        assert_eq!(s.hex_color, format!("#{:06X}", s.color));
    }
}
