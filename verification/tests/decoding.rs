use hookline::query::{parse_path_query, urlencoded_params, QueryParams};
use hookline::url::url_decode;

#[test]
fn url_decode_keeps_plain_text() {
    assert_eq!(url_decode("hello-world_1.2~x"), "hello-world_1.2~x");
    assert_eq!(url_decode("héllo wörld"), "héllo wörld");
    assert_eq!(url_decode(""), "");
}

#[test]
fn url_decode_percent_escapes() {
    assert_eq!(url_decode("Build%20Failed"), "Build Failed");
    assert_eq!(url_decode("Pipeline+%23123+failed"), "Pipeline #123 failed");
    assert_eq!(url_decode("%41%62"), "Ab");
}

#[test]
fn url_decode_plus_is_space() {
    assert_eq!(url_decode("a+b+c"), "a b c");
}

#[test]
fn url_decode_invalid_escape_is_kept() {
    assert_eq!(url_decode("%zz1"), "%zz1");
    assert_eq!(url_decode("100%"), "100%");
    assert_eq!(url_decode("%"), "%");
    assert_eq!(url_decode("%é!"), "%é!");
    assert_eq!(url_decode("%+"), "%+");
}

#[test]
fn url_decode_short_escape_at_end() {
    assert_eq!(url_decode("x%4"), "x\u{4}");
}

#[test]
fn url_decode_plus_sign_inside_escape() {
    // "+a" is accepted by u8::from_str_radix as 10
    assert_eq!(url_decode("%+a"), "\n");
}

#[test]
fn url_decode_multibyte_utf8() {
    assert_eq!(url_decode("%E2%9C%85"), "✅");
    assert_eq!(url_decode("caf%C3%A9"), "café");
}

#[test]
fn url_decode_invalid_utf8_is_replaced() {
    assert_eq!(url_decode("%FF"), "\u{FFFD}");
    assert_eq!(url_decode("a%C3"), "a\u{FFFD}");
}

fn lookup(q: &QueryParams, k: &str) -> Option<String> {
    q.get(k)
}

#[test]
fn query_params_basic() {
    let q = urlencoded_params("token=secret&title=Build+Failed&message=Pipeline%20%23123");
    assert_eq!(lookup(&q, "token"), Some("secret".to_string()));
    assert_eq!(lookup(&q, "title"), Some("Build Failed".to_string()));
    assert_eq!(lookup(&q, "message"), Some("Pipeline #123".to_string()));
    assert_eq!(lookup(&q, "missing"), None);
    assert!(q.contains_key("token"));
    assert!(!q.contains_key("to"));
}

#[test]
fn query_params_last_value_wins() {
    let q = urlencoded_params("a=1&b=2&a=3");
    assert_eq!(lookup(&q, "a"), Some("3".to_string()));
    assert_eq!(lookup(&q, "b"), Some("2".to_string()));
}

#[test]
fn query_params_skips_empty_pieces_and_keeps_bare_keys() {
    let q = urlencoded_params("&&flag&x=&=v&y=a=b&");
    assert_eq!(lookup(&q, "flag"), Some(String::new()));
    assert_eq!(lookup(&q, "x"), Some(String::new()));
    assert_eq!(lookup(&q, ""), Some("v".to_string()));
    assert_eq!(lookup(&q, "y"), Some("a=b".to_string()));
}

#[test]
fn query_params_keys_are_decoded() {
    let q = urlencoded_params("title%5Fprefix=CI&a+b=c");
    assert_eq!(lookup(&q, "title_prefix"), Some("CI".to_string()));
    assert_eq!(lookup(&q, "a b"), Some("c".to_string()));
}

#[test]
fn query_params_insert_replaces() {
    let mut q = QueryParams::new();
    q.insert("k".to_string(), "1".to_string());
    q.insert("j".to_string(), "2".to_string());
    q.insert("k".to_string(), "3".to_string());
    assert_eq!(q.get("k"), Some("3".to_string()));
    assert_eq!(q.get("j"), Some("2".to_string()));
}

#[test]
fn parse_path_query_splits_at_first_question_mark() {
    let (path, q) = parse_path_query("/alert/ci?token=abc&title=T?x");
    assert_eq!(path, "/alert/ci");
    assert_eq!(q.get("token"), Some("abc".to_string()));
    assert_eq!(q.get("title"), Some("T?x".to_string()));
}

#[test]
fn parse_path_query_without_query() {
    let (path, q) = parse_path_query("/alert/ci");
    assert_eq!(path, "/alert/ci");
    assert_eq!(q.get("token"), None);
    let (path, q) = parse_path_query("/a?");
    assert_eq!(path, "/a");
    assert_eq!(q.get(""), None);
}

#[test]
fn parse_path_query_does_not_decode_path() {
    let (path, _) = parse_path_query("/a%20b+c?x=1");
    assert_eq!(path, "/a%20b+c");
}

#[test]
fn percent_encoding_round_trips() {
    for s in ["Build Failed #1", "café ✅ 日本", "", "a+b%c", "\u{1F600}"] {
        let e: String = s.bytes().map(|b| format!("%{:02X}", b)).collect();
        assert_eq!(url_decode(&e), s);
    }
}
