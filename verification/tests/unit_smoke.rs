//! Offline smoke tests of host checks, status codes, settings files and the dashboard window.

use waf_console::dashboard;
use waf_console::json::{clone_json, get, Json};
use waf_console::lapi::parse_simple_yaml;
use waf_console::netguard;
use waf_console::status;

fn obj(fields: &[(&str, Json)]) -> Json {
    Json::Object(fields.iter().map(|(k, v)| (k.to_string(), clone_json(v))).collect())
}

fn s(v: &str) -> Json {
    Json::Str(v.to_string())
}

fn lookup<'a>(pairs: &'a [(String, String)], key: &str) -> Option<&'a str> {
    pairs.iter().find(|(k, _)| k == key).map(|(_, v)| v.as_str())
}

#[test]
fn sanitize_hostname_accepts_fqdn() {
    let host = netguard::sanitize_hostname("Example.COM").expect("valid host");
    assert_eq!(host, "example.com");
}

#[test]
fn sanitize_hostname_rejects_injection() {
    assert!(netguard::sanitize_hostname("evil\rhost").is_err());
    assert!(netguard::sanitize_hostname("").is_err());
}

#[test]
fn http_status_ok_2xx_and_3xx() {
    assert!(status::http_status_ok(&Json::Int(200)));
    assert!(status::http_status_ok(&Json::Int(302)));
    assert!(status::http_status_ok(&s("301")));
    assert!(!status::http_status_ok(&Json::Int(404)));
    assert!(!status::http_status_ok(&s("nope")));
}

#[test]
fn parse_simple_yaml_login_password() {
    let password = "a".repeat(64);
    let text = format!("url: http://127.0.0.1:18080\r\nlogin: localhost\r\npassword: {password}\r\n");
    let data = parse_simple_yaml(&text);
    assert_eq!(lookup(&data, "url"), Some("http://127.0.0.1:18080"));
    assert_eq!(lookup(&data, "login"), Some("localhost"));
    assert_eq!(lookup(&data, "password"), Some(password.as_str()));
}

#[test]
fn within_window_hours_filters_age() {
    let now: i64 = 1_700_000_000;
    let hour: i64 = 3600;
    assert!(dashboard::within_window_hours(Some(now - hour), now, 24));
    assert!(dashboard::within_window_hours(Some(now - 23 * hour), now, 24));
    assert!(!dashboard::within_window_hours(Some(now - 25 * hour), now, 24));
    assert!(!dashboard::within_window_hours(Some(now + hour), now, 24));
    assert!(!dashboard::within_window_hours(None, now, 24));
}

#[test]
fn dashboard_build_marks_sample_and_window() {
    let now: i64 = 1_700_000_000;
    let alerts = vec![
        obj(&[
            ("created_at", s("inside")),
            ("scenario", s("http-probing")),
            ("source", obj(&[("ip", s("1.2.3.4")), ("cn", s("BR"))])),
            ("meta", Json::Array(vec![obj(&[("key", s("http_path")), ("value", s("/"))])])),
        ]),
        obj(&[
            ("created_at", s("outside")),
            ("scenario", s("http-probing")),
            ("source", obj(&[("ip", s("5.6.7.8")), ("cn", s("US"))])),
            ("meta", Json::Array(vec![obj(&[("key", s("http_path")), ("value", s("/old"))])])),
        ]),
    ];
    let times = vec![Some(now - 2 * 3600), Some(now - 30 * 3600)];
    let (rows, _row_times, skipped) = dashboard::build_rows(&alerts, &times, now, "", &Vec::new());
    assert_eq!(rows.len(), 1);
    assert_eq!(skipped, 1);
    let (limit, capped, label) = dashboard::sample_info(alerts.len(), Some(2));
    assert_eq!(limit, 2);
    assert!(capped);
    assert!(label.contains("sample of newest"));
    let engine = obj(&[
        ("fail_closed", Json::Bool(true)),
        ("fail_closed_mutable", Json::Bool(false)),
        ("oob_log_only", Json::Bool(true)),
        ("appsec_listen", Json::Bool(true)),
    ]);
    let actions = dashboard::action_items(&engine, &rows, &Vec::new());
    assert!(actions.iter().any(|a| matches!(get(a, "id"), Some(Json::Str(id)) if id == "fail-closed-cso")));
}

#[test]
fn clean_path_drops_query_and_defaults_to_root() {
    assert_eq!(dashboard::clean_path(" /login?next=/admin "), "/login");
    assert_eq!(dashboard::clean_path("?only=query"), "/");
    assert_eq!(dashboard::clean_path(""), "/");
}

#[test]
fn clean_path_cuts_long_paths_at_177_bytes() {
    let long = format!("/{}", "a".repeat(199));
    let cut = dashboard::clean_path(&long);
    assert_eq!(cut.len(), 180);
    assert_eq!(&cut[..177], &long[..177]);
    assert!(cut.ends_with("..."));
    let exact = format!("/{}", "b".repeat(179));
    assert_eq!(dashboard::clean_path(&exact), exact);
    // a two-byte character ending exactly at byte 177 is kept whole
    let wide = format!("/{}é{}", "c".repeat(174), "d".repeat(20));
    assert_eq!(dashboard::clean_path(&wide), format!("/{}é...", "c".repeat(174)));
}

#[test]
fn alert_cut_check_flags_paths_split_inside_a_character() {
    let split = format!("/{}é{}", "c".repeat(175), "d".repeat(20));
    let bad = obj(&[("meta", obj(&[("target_uri", s(&split))]))]);
    assert!(!dashboard::alert_cuts_cleanly(&bad));
    let fine = obj(&[("meta", obj(&[("target_uri", s("/x")), ("ja4h", s("ge11nn_abc"))]))]);
    assert!(dashboard::alert_cuts_cleanly(&fine));
    let ja_bad = obj(&[("meta", obj(&[("ja4h", s("g€11_x"))]))]);
    assert!(!dashboard::alert_cuts_cleanly(&ja_bad));
}

#[test]
fn ja4h_version_reads_bytes_two_to_four() {
    assert_eq!(dashboard::http_version_from_ja4h("ge11nn05enus_abc"), "HTTP/1.1");
    assert_eq!(dashboard::http_version_from_ja4h("PO20cn_x"), "HTTP/2");
    assert_eq!(dashboard::http_version_from_ja4h("ge9"), "");
    assert_eq!(dashboard::http_version_from_ja4h("gexx_1"), "");
    // a two-byte first character puts the version at characters 1 and 2
    assert_eq!(dashboard::http_version_from_ja4h("é30q"), "HTTP/3");
}

#[test]
fn rate_limiter_slides_its_window() {
    let mut rl = netguard::RateLimiter::new(2, 1000);
    assert!(rl.allow("a", 0));
    assert!(rl.allow("a", 100));
    assert!(!rl.allow("a", 200));
    assert!(!rl.allow("a", 999));
    assert!(rl.allow("b", 999));
    assert!(rl.allow("a", 1000));
    assert!(!rl.allow("a", 1050));
    assert!(rl.allow("a", 1100));
}

#[test]
fn rate_limiter_clamps_limit_and_window() {
    let mut rl = netguard::RateLimiter::new(0, 10);
    assert!(rl.allow("k", 0));
    assert!(!rl.allow("k", 499));
    assert!(rl.allow("k", 500));
}

#[test]
fn json_text_writes_object_keys_sorted() {
    let j = obj(&[("zeta", Json::Int(1)), ("alpha", s("x")), ("mid", Json::Array(vec![Json::Null, Json::Bool(true)]))]);
    assert_eq!(waf_console::json::json_text(&j), r#"{"alpha":"x","mid":[null,true],"zeta":1}"#);
    let a = obj(&[("b", Json::Int(2)), ("a", Json::Int(1))]);
    let b = obj(&[("a", Json::Int(1)), ("b", Json::Int(2))]);
    assert_eq!(waf_console::json::json_text(&a), waf_console::json::json_text(&b));
}
