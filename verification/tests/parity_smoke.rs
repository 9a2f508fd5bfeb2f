//! Smoke tests of the classification, scrubbing, validation and route rules.

use waf_console::control;
use waf_console::correlate;
use waf_console::json::{clone_json, get, json_text, Json};
use waf_console::routes::{self, RouteEnv};
use waf_console::stix;

fn classify_code(name: &str) -> String {
    match get(&correlate::classify(Some(name), None), "code") {
        Some(Json::Str(s)) => s.clone(),
        _ => String::new(),
    }
}

fn classify_attack(name: &str) -> Vec<String> {
    match get(&correlate::classify(Some(name), None), "attack") {
        Some(Json::Array(items)) => items
            .iter()
            .filter_map(|v| match v {
                Json::Str(s) => Some(s.clone()),
                _ => None,
            })
            .collect(),
        _ => Vec::new(),
    }
}

fn obj(fields: &[(&str, Json)]) -> Json {
    Json::Object(fields.iter().map(|(k, v)| (k.to_string(), clone_json(v))).collect())
}

fn s(v: &str) -> Json {
    Json::Str(v.to_string())
}

#[test]
fn correlate_classify_sqli_xss_ssrf() {
    assert_eq!(classify_code("crowdsecurity/http-generic-sqli"), "A03");
    assert_eq!(classify_code("crs/941110-xss"), "A03");
    assert_eq!(classify_code("ssrf-probe"), "A10");
    assert_eq!(classify_attack("crowdsecurity/http-generic-sqli"), vec!["T1190"]);
    assert_eq!(classify_attack("crs/941110-xss"), vec!["T1190"]);
}

#[test]
fn correlate_classify_probing_and_empty() {
    assert_eq!(classify_code("http-probing"), "A05");
    assert_eq!(classify_code(""), "none");
}

#[test]
fn correlate_scrub_drops_secret_keys() {
    let map = obj(&[("api_secret", s("leak")), ("note", s("ok"))]);
    let scrubbed = correlate::scrub(map);
    let blob = json_text(&scrubbed);
    assert!(!blob.contains("leak"));
    assert!(!blob.contains("api_secret"));
    assert!(blob.contains("ok"));
}

#[test]
fn correlate_stix_bundle_shape() {
    let finding = obj(&[("id", s("f1")), ("name", s("test")), ("severity", s("medium"))]);
    let payload = obj(&[("findings", Json::Array(vec![finding])), ("generated_at", Json::Int(1))]);
    let bundle = stix::stix_bundle(&payload);
    assert!(matches!(get(&bundle, "type"), Some(Json::Str(t)) if t == "bundle"));
    assert!(matches!(get(&bundle, "objects"), Some(Json::Array(_))));
}

#[test]
fn control_validate_duration_and_cidr() {
    assert_eq!(control::validate_duration("4h").unwrap(), "4h");
    assert!(control::validate_duration("999h").is_err());
    assert!(control::validate_cidr("10.0.0.1").unwrap().ends_with("/32"));
    assert!(control::validate_cidr("10.0.0.0/8").is_err());
}

#[test]
fn routes_validate_name_reserved() {
    let env = RouteEnv::from_settings(None, None, None);
    let mut store: Vec<Json> = Vec::new();
    let payload = obj(&[
        ("name", s("waf-console")),
        ("host", s("example.com")),
        ("service_url", s("http://127.0.0.1:8081")),
    ]);
    let err = routes::upsert_route(&mut store, &payload, &env).unwrap_err();
    assert!(err.contains("reserved"));
    assert!(store.is_empty());
}

#[test]
fn ga_load_snapshot_unconfigured_without_file() {
    let snap = waf_console::ga::empty_snapshot();
    assert!(matches!(get(&snap, "configured"), Some(Json::Bool(false))));
    match get(&snap, "property") {
        Some(Json::Str(p)) => assert_eq!(p, waf_console::ga::DEFAULT_PROPERTY),
        _ => panic!("property missing"),
    }
}
