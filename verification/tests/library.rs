//! Behaviour of the server decisions, correlation, exports, Local API helpers and GA4 snapshot.

use waf_console::control::hub_appsec_rules;
use waf_console::correlate;
use waf_console::export::{misp_event_at, thehive_alert_at};
use waf_console::findings::{collapse_findings, correlate as correlate_alerts, findings_of};
use waf_console::fresh::{new_id, now_unix, unix_seconds, utc_compact, utc_day, utc_now, utc_stix};
use waf_console::ga;
use waf_console::json::{clone_json, get, json_text, Json};
use waf_console::control::{integrity_record, FileRead};
use waf_console::lapi;
use waf_console::rules::{engine_posture, rules_document, std_lines_exec};
use waf_console::stix::{byte_prefix_exec, stix_bundle_at, stix_id, stix_seed_cuts_cleanly};
use waf_console::netguard::assert_loopback_http_url;
use waf_console::server::{
    self, ApiGet, AppState, GetRoute, HttpMethod, PostRoute,
};

fn obj(fields: &[(&str, Json)]) -> Json {
    Json::Object(fields.iter().map(|(k, v)| (k.to_string(), clone_json(v))).collect())
}

fn s(v: &str) -> Json {
    Json::Str(v.to_string())
}

fn arr(items: Vec<Json>) -> Json {
    Json::Array(items)
}

fn text(j: Option<&Json>) -> String {
    match j {
        Some(Json::Str(v)) => v.clone(),
        _ => String::new(),
    }
}

fn items(j: Option<&Json>) -> Vec<Json> {
    match j {
        Some(Json::Array(v)) => v.iter().map(clone_json).collect(),
        _ => Vec::new(),
    }
}

fn uint(j: Option<&Json>) -> u64 {
    match j {
        Some(Json::UInt(n)) => *n,
        Some(Json::Int(n)) => *n as u64,
        _ => u64::MAX,
    }
}

#[test]
fn route_path_strips_mount() {
    assert_eq!(server::route_path("/waf"), "/");
    assert_eq!(server::route_path("/waf/"), "/");
    assert_eq!(server::route_path("/waf/api/health"), "/api/health");
    assert_eq!(server::route_path("/api/health"), "/api/health");
    assert_eq!(server::route_path("/wafx"), "/wafx");
}

#[test]
fn content_type_by_extension() {
    assert_eq!(server::content_type_for("index.html"), "text/html; charset=utf-8");
    assert_eq!(server::content_type_for("app.css"), "text/css; charset=utf-8");
    assert_eq!(server::content_type_for("logo.png"), "image/png");
    assert_eq!(server::content_type_for("en.json"), "application/json; charset=utf-8");
    assert_eq!(server::content_type_for("blob.bin"), "application/octet-stream");
}

#[test]
fn client_errors_map_to_400() {
    assert!(server::is_client_err("invalid ip"));
    assert!(server::is_client_err("policy already exists"));
    assert!(!server::is_client_err("lapi unreachable"));
    assert_eq!(server::error_status("ip required"), 400);
    assert_eq!(server::error_status("timeout"), 502);
}

#[test]
fn download_names_are_safe() {
    assert_eq!(server::safe_download_name("waf findings/../x.json"), "waf_findings_.._x.json");
    let long = "a".repeat(100);
    assert_eq!(server::safe_download_name(&long).len(), 80);
}

#[test]
fn client_key_prefers_forwarded() {
    assert_eq!(server::client_key(Some(" 1.2.3.4 , 5.6.7.8"), Some("9.9.9.9")), "1.2.3.4");
    assert_eq!(server::client_key(None, Some("9.9.9.9")), "9.9.9.9");
    assert_eq!(server::client_key(None, None), "unknown");
}

#[test]
fn mutation_guard_checks_origin() {
    assert_eq!(server::mutation_guard("console.local:8443", ""), None);
    assert_eq!(server::mutation_guard("console.local:8443", "https://console.local"), None);
    assert_eq!(server::mutation_guard("x", "http://localhost:3000"), None);
    assert_eq!(server::mutation_guard("console.local", "https://evil.example"), Some("origin mismatch"));
    assert_eq!(server::mutation_guard("console.local", "ftp://console.local"), Some("invalid origin"));
    assert_eq!(server::mutation_guard("console.local", "not a url"), Some("invalid origin"));
}

#[test]
fn media_type_accepts_json_only() {
    assert!(server::media_type_ok(""));
    assert!(server::media_type_ok("application/json; charset=utf-8"));
    assert!(server::media_type_ok("Text/JSON"));
    assert!(!server::media_type_ok("text/plain"));
}

#[test]
fn get_routes_assets_and_api() {
    assert!(matches!(server::get_route("/"), GetRoute::Asset(n, false) if n == "index.html"));
    assert!(matches!(server::get_route("/static/js/app.js"), GetRoute::Asset(n, true) if n == "app.js"));
    assert!(matches!(server::get_route("/app.css"), GetRoute::Asset(n, true) if n == "app.css"));
    assert!(matches!(server::get_route("/locales/en.json"), GetRoute::Asset(n, true) if n == "locales/en.json"));
    assert!(matches!(server::get_route("/locales/fr.json"), GetRoute::NotFound));
    assert!(matches!(server::get_route("/api/map"), GetRoute::Api(ApiGet::WorldMap)));
    assert!(matches!(server::get_route("/api/policies"), GetRoute::Api(ApiGet::Filters)));
    assert!(matches!(server::get_route("/nope"), GetRoute::NotFound));
    assert!(server::is_heavy_get("/api/dashboard"));
    assert!(!server::is_heavy_get("/api/health"));
}

#[test]
fn post_routes_and_payloads() {
    assert_eq!(server::post_route("/api/policies/delete"), PostRoute::FilterDelete);
    assert_eq!(server::post_route("/api/tunnels/update"), PostRoute::TunnelUpsert);
    assert_eq!(server::post_route("/api/unknown"), PostRoute::NotFound);
    assert_eq!(server::decision_ip(&obj(&[])), Err("ip required".to_string()));
    assert_eq!(server::decision_ip(&obj(&[("ip", s("x"))])), Err("invalid ip".to_string()));
    assert_eq!(server::decision_ip(&obj(&[("ip", s(" 10.0.0.1 "))])), Ok("10.0.0.1".to_string()));
    assert_eq!(server::check_ip(&obj(&[])), Err("invalid ip".to_string()));
    assert!(server::filter_is_update(&obj(&[("id", s("abc"))])));
    assert!(!server::filter_is_update(&obj(&[("id", s(""))])));
    assert_eq!(server::toggle_args(&obj(&[("id", s("p1"))])), ("p1".to_string(), false));
    assert_eq!(
        server::allowlist_args(&obj(&[("ip", s("1.2.3.4"))])),
        ("1.2.3.4".to_string(), "cso-console".to_string())
    );
    assert_eq!(server::delete_target(&obj(&[("name", s("r1"))])), "r1");
    assert_eq!(server::listen_port(Some("8080")), 8080);
    assert_eq!(server::listen_port(Some("x")), 18990);
    assert_eq!(server::listen_port(None), 18990);
    assert!(server::bind_allowed("::1"));
    assert!(!server::bind_allowed("0.0.0.0"));
}

#[test]
fn screening_limits_and_guards() {
    let mut state = AppState::new("static".to_string(), "", "");
    for i in 0..40u64 {
        assert_eq!(state.screen(HttpMethod::Get, "/api/dashboard", "k", 1000 + i, "", "", ""), None);
    }
    let refused = state.screen(HttpMethod::Get, "/api/dashboard", "k", 2000, "", "", "");
    assert_eq!(refused, Some((429, "rate limit exceeded (heavy-get)".to_string())));
    assert_eq!(state.screen(HttpMethod::Get, "/api/health", "k", 2000, "", "", ""), None);
    let bad_origin = state.screen(HttpMethod::Post, "/api/filters", "p", 10, "console", "https://evil.example", "");
    assert_eq!(bad_origin, Some((403, "origin mismatch".to_string())));
    let bad_type = state.screen(HttpMethod::Post, "/api/filters", "p", 11, "console", "", "text/plain");
    assert_eq!(bad_type, Some((415, "unsupported media type".to_string())));
    assert_eq!(state.screen(HttpMethod::Post, "/api/filters", "p", 12, "console", "", "application/json"), None);
}

fn sqli_alert(ip: &str, when: &str) -> Json {
    obj(&[
        ("scenario", s("crowdsecurity/http-generic-sqli")),
        ("created_at", s(when)),
        ("source", obj(&[("ip", s(ip)), ("cn", s("br")), ("city", s(" Rio "))])),
    ])
}

#[test]
fn correlation_collapses_and_counts() {
    let alerts = vec![
        sqli_alert("1.1.1.1", "2024-01-01T00:00:00Z"),
        sqli_alert("1.1.1.1", "2024-01-02T00:00:00Z"),
        sqli_alert("2.2.2.2", "2024-01-01T05:00:00Z"),
        obj(&[("scenario", s("enabling body inspection"))]),
        s("not an alert"),
    ];
    let out = correlate_alerts(&alerts, None, false, true, false);
    let findings = items(get(&out, "findings"));
    assert_eq!(findings.len(), 2);
    assert_eq!(text(get(&findings[0], "ip")), "1.1.1.1");
    assert_eq!(uint(get(&findings[0], "events")), 2);
    assert_eq!(text(get(&findings[0], "when")), "2024-01-02T00:00:00Z");
    assert_eq!(text(get(&findings[0], "cn")), "BR");
    assert_eq!(text(get(&findings[0], "city")), "Rio");
    assert_eq!(text(get(&findings[0], "owasp")), "A03");
    let owasp = items(get(&out, "owasp"));
    assert_eq!(owasp.len(), 10);
    assert_eq!(text(get(&owasp[2], "code")), "A03");
    assert_eq!(uint(get(&owasp[2], "count")), 2);
    assert_eq!(uint(get(&owasp[0], "count")), 0);
    let attack = items(get(&out, "attack"));
    assert_eq!(text(get(&attack[0], "id")), "T1190");
    assert_eq!(uint(get(&attack[0], "count")), 2);
    let mitre = get(&out, "mitre").map(clone_json).unwrap_or(Json::Null);
    let uncovered = items(get(&mitre, "uncovered"));
    assert!(!uncovered.iter().any(|t| text(Some(t)) == "T1190"));
    assert_eq!(uncovered.len(), 12);
    let tactics = items(get(&mitre, "tactics"));
    assert_eq!(tactics.len(), 9);
    assert_eq!(text(get(&tactics[1], "name")), "Initial Access");
    assert_eq!(uint(get(&tactics[1], "count")), 2);
    let techniques = items(get(&mitre, "techniques"));
    let codes: Vec<String> = items(get(&techniques[0], "owasp")).iter().map(|c| text(Some(c))).collect();
    assert_eq!(codes, vec!["A03".to_string()]);
    let connectors = items(get(&out, "connectors"));
    assert_eq!(connectors.len(), 7);
    assert_eq!(text(get(&connectors[2], "status")), "unconfigured");
    assert_eq!(text(get(&connectors[3], "status")), "configured");
}

#[test]
fn collapse_keeps_every_event() {
    let alerts = vec![
        sqli_alert("1.1.1.1", "a"),
        sqli_alert("1.1.1.1", "b"),
        sqli_alert("3.3.3.3", "c"),
        sqli_alert("1.1.1.1", "d"),
    ];
    let all = findings_of(&alerts);
    assert_eq!(all.len(), 4);
    let rows = collapse_findings(all);
    assert_eq!(rows.len(), 2);
    let total: u64 = rows.iter().map(|r| r.events).sum();
    assert_eq!(total, 4);
}

#[test]
fn misp_event_lists_attributes() {
    let payload = obj(&[(
        "findings",
        arr(vec![obj(&[
            ("ip", s(" 1.1.1.1 ")),
            ("scenario", s("sqli")),
            ("owasp", s("A03")),
            ("confidence", s("high")),
            ("attack", arr(vec![s("T1190"), s("T9999")])),
        ])]),
    )]);
    let ev = misp_event_at(&payload, "2024-01-01");
    let event = get(&ev, "Event").map(clone_json).unwrap_or(Json::Null);
    assert_eq!(text(get(&event, "date")), "2024-01-01");
    let attrs = items(get(&event, "Attribute"));
    assert_eq!(attrs.len(), 4);
    assert_eq!(text(get(&attrs[0], "value")), "1.1.1.1");
    assert_eq!(text(get(&attrs[0], "comment")), "sqli \u{b7} A03 \u{b7} high");
    assert_eq!(text(get(&attrs[2], "comment")), "Exploit Public-Facing Application");
    assert_eq!(text(get(&attrs[3], "comment")), "ATT&CK");
    assert!(matches!(get(&ev, "push"), Some(Json::Bool(false))));
}

#[test]
fn thehive_alert_tags_once() {
    let f = obj(&[
        ("ip", s("1.1.1.1")),
        ("scenario", s("")),
        ("owasp", s("A03")),
        ("attack", arr(vec![s("T1190")])),
    ]);
    let g = obj(&[("owasp", s("none")), ("attack", arr(vec![s("T1190"), s("T1595")]))]);
    let payload = obj(&[("findings", arr(vec![f, g]))]);
    let alert = thehive_alert_at(&payload, "20240101T000000Z");
    assert_eq!(text(get(&alert, "sourceRef")), "waf-findings-20240101T000000Z");
    let tags: Vec<String> = items(get(&alert, "tags")).iter().map(|t| text(Some(t))).collect();
    assert_eq!(
        tags,
        vec!["waf-console", "crowdsec", "owasp-top10-2021", "owasp:A03", "attack:T1190", "attack:T1595"]
    );
    let arts = items(get(&alert, "artifacts"));
    assert_eq!(arts.len(), 1);
    assert_eq!(text(get(&arts[0], "message")), "crowdsec-alert");
}

#[test]
fn lapi_helpers() {
    assert_eq!(lapi::json_escape("a\"b\n\u{1}\\"), "a\\\"b\\n\\u0001\\\\");
    assert_eq!(lapi::alerts_fetch_limit("", 200), 200);
    assert_eq!(lapi::alerts_fetch_limit("900", 200), 500);
    assert_eq!(lapi::alerts_fetch_limit("x", 7), 7);
    assert_eq!(lapi::alerts_fetch_limit("", 1000), 500);
    assert_eq!(lapi::alerts_fetch_limit(" ", 0), 1);
    assert_eq!(lapi::probe_workers("0"), 1);
    assert_eq!(lapi::probe_workers(""), 8);
    let payload = obj(&[("new", arr(vec![s("a")])), ("decisions", arr(vec![s("b"), s("c")]))]);
    let flat = lapi::flatten_decisions(&payload);
    assert_eq!(flat.iter().map(|x| text(Some(x))).collect::<Vec<_>>(), vec!["a", "b", "c"]);
    let ds = vec![
        obj(&[("origin", s("CAPI"))]),
        obj(&[("origin", s("CSCLI")), ("value", s("1"))]),
        obj(&[("origin", s("crowdsec")), ("value", s("2"))]),
        obj(&[("origin", s("console")), ("value", s("3"))]),
    ];
    let local = lapi::prefer_local_decisions(&ds, 2);
    assert_eq!(local.len(), 2);
    assert_eq!(text(get(&local[1], "value")), "2");
    assert_eq!(
        lapi::extract_cidrs("allow 10.0.0.0/8 and 1.2.3.4; again 10.0.0.0/8, bad 999.1.1.1"),
        vec!["10.0.0.0/8".to_string(), "1.2.3.4".to_string()]
    );
    assert!(lapi::parser_match("10.1.2.3", &vec!["1.2.3.4".to_string(), "10.0.0.0/8".to_string()]));
    assert!(!lapi::parser_match("11.1.2.3", &vec!["10.0.0.0/8".to_string()]));
}

#[test]
fn ban_requests_are_validated() {
    let ok = lapi::ban_request(&obj(&[("ip", s(" 1.2.3.4 "))]), "2024-01-01T00:00:00Z").expect("valid ban");
    assert_eq!(ok.ip, "1.2.3.4");
    assert_eq!(ok.duration, "4h");
    assert_eq!(ok.reason, "cso-console");
    let body = json_text(&ok.body);
    assert!(body.contains("manual/cso-ban"));
    assert!(body.contains("2024-01-01T00:00:00Z"));
    assert_eq!(lapi::ban_request(&obj(&[("ip", s("x"))]), "t").err(), Some("invalid ip".to_string()));
    assert!(lapi::ban_request(&obj(&[("ip", s("1.2.3.4")), ("duration", s("999h"))]), "t").is_err());
    let long = "r".repeat(200);
    let capped = lapi::ban_request(&obj(&[("ip", s("1.2.3.4")), ("reason", s(&long))]), "t").unwrap();
    assert_eq!(capped.reason.len(), 120);
}

#[test]
fn ga_snapshot_and_verdicts() {
    assert_eq!(ga::verdict(0, 5), "clean-traffic");
    assert_eq!(ga::verdict(3, 0), "scanner-heavy");
    assert_eq!(ga::verdict(5, 20), "user-impact-risk");
    assert_eq!(ga::verdict(1, 1), "mixed");
    assert_eq!(ga::as_int(&Json::Int(-3), 7), 7);
    assert_eq!(ga::as_int(&Json::UInt(12), 7), 12);
    assert!(ga::skip_host(" /WAF/x"));
    let data = obj(&[
        ("property", s("G-ABC123")),
        ("api_secret", s("leak")),
        (
            "hosts",
            arr(vec![
                s(" www.example.com "),
                s("/waf/x"),
                obj(&[("host", s("WWW.example.com")), ("sessions", Json::Int(3))]),
                obj(&[("hostname", s("b.com")), ("sessions", Json::Int(2))]),
            ]),
        ),
        (
            "countries",
            arr(vec![
                obj(&[("cn", s("br")), ("sessions", Json::Int(4))]),
                obj(&[("country", s("BR"))]),
                obj(&[("cn", s("USA"))]),
            ]),
        ),
    ]);
    let snap = ga::snapshot_of(&data);
    assert!(matches!(get(&snap, "configured"), Some(Json::Bool(true))));
    assert_eq!(text(get(&snap, "property")), "G-ABC123");
    assert!(matches!(get(&snap, "window_days"), Some(Json::Int(7))));
    let hosts = items(get(&snap, "hosts"));
    assert_eq!(hosts.len(), 2);
    assert_eq!(text(get(&hosts[0], "host")), "www.example.com");
    assert_eq!(text(get(&hosts[1], "host")), "b.com");
    let countries = items(get(&snap, "countries"));
    assert_eq!(countries.len(), 1);
    assert_eq!(text(get(&countries[0], "cn")), "BR");
    assert!(!json_text(&snap).contains("leak"));
    let shown = ga::public(&snap);
    assert!(matches!(get(&shown, "contributes"), Some(Json::Bool(true))));
    let bad = ga::snapshot_of(&obj(&[("property", s("bad"))]));
    assert_eq!(text(get(&bad, "property")), ga::DEFAULT_PROPERTY);
}

#[test]
fn hub_rule_names() {
    let rels = vec![
        "vpatch-x.yaml".to_string(),
        "sub/dir/rule.yaml".to_string(),
        "README.md".to_string(),
        "a\\b.yaml".to_string(),
        ".yaml".to_string(),
    ];
    assert_eq!(
        hub_appsec_rules(&rels),
        vec!["crowdsecurity/vpatch-x".to_string(), "sub/dir/rule".to_string(), "a/b".to_string()]
    );
    let many: Vec<String> = (0..300).map(|i| format!("r{i}.yaml")).collect();
    assert_eq!(hub_appsec_rules(&many).len(), 250);
}

#[test]
fn clock_and_ids() {
    assert!(now_unix() > 1_600_000_000);
    assert_eq!(unix_seconds(-5), 0);
    assert_eq!(unix_seconds(42), 42);
    let id = new_id();
    assert_eq!(id.len(), 12);
    assert!(id.chars().all(|c| c.is_ascii_hexdigit()));
    assert_ne!(new_id(), id);
    let _ = correlate::owasp_2021();
}

#[test]
fn stix_ids_come_from_sha1() {
    let seed: Vec<char> = "waf-console".chars().collect();
    assert_eq!(stix_id("identity", &seed), "identity--42d410ad-6f5e-fb49-cf55-a69945f6455f");
    let seed: Vec<char> = "owasp-A03".chars().collect();
    assert_eq!(stix_id("attack-pattern", &seed), "attack-pattern--233e9aa0-1c8e-1431-640c-e84a80017df7");
}

#[test]
fn stix_byte_prefix_counts_utf8() {
    let v: Vec<char> = "a\u{e9}b".chars().collect();
    assert_eq!(byte_prefix_exec(&v, 3), vec!['a', '\u{e9}']);
    assert_eq!(byte_prefix_exec(&v, 2), vec!['a']);
    assert_eq!(byte_prefix_exec(&v, 10), v);
}

#[test]
fn stix_bundle_objects_in_order() {
    let finding = obj(&[
        ("when", s("2024-01-01T00:00:00Z")),
        ("ip", s(" 1.2.3.4 ")),
        ("scenario", s("sqli")),
        ("owasp", s("A03")),
        ("attack", arr(vec![s("T1190"), s("T1595")])),
        ("confidence", s("high")),
    ]);
    let payload = obj(&[
        ("owasp", arr(vec![
            obj(&[("code", s("A03")), ("name", s("Injection"))]),
            obj(&[("code", s("none"))]),
        ])),
        ("attack", arr(vec![
            obj(&[("id", s("T1190"))]),
            obj(&[("id", s("T1190")), ("name", s("dup"))]),
            obj(&[("name", s("no id"))]),
        ])),
        ("findings", arr(vec![finding])),
    ]);
    let b = stix_bundle_at(&payload, "2024-01-02T03:04:05.000Z");
    assert_eq!(text(get(&b, "type")), "bundle");
    let objects = items(get(&b, "objects"));
    assert_eq!(objects.len(), 5);
    assert_eq!(text(get(&objects[0], "id")), "identity--42d410ad-6f5e-fb49-cf55-a69945f6455f");
    assert_eq!(text(get(&objects[0], "created")), "2024-01-02T03:04:05.000Z");
    assert_eq!(text(get(&objects[1], "id")), "attack-pattern--233e9aa0-1c8e-1431-640c-e84a80017df7");
    assert_eq!(text(get(&objects[1], "name")), "A03:2021 Injection");
    assert_eq!(text(get(&objects[1], "description")), "https://owasp.org/Top10/2021/");
    assert_eq!(text(get(&objects[2], "id")), "attack-pattern--a36445e5-f2b2-8476-e8c9-f9af7bd80ab3");
    assert_eq!(text(get(&objects[2], "name")), "T1190");
    let refs = items(get(&objects[2], "external_references"));
    assert_eq!(text(get(&refs[0], "url")), "https://attack.mitre.org/techniques/T1190/");
    assert_eq!(text(get(&objects[3], "type")), "indicator");
    assert_eq!(text(get(&objects[3], "id")), "indicator--720a8576-caad-09d1-de23-2b5464371613");
    assert_eq!(text(get(&objects[3], "pattern")), "[ipv4-addr:value = '1.2.3.4']");
    assert_eq!(
        text(get(&objects[3], "description")),
        "OWASP A03 \u{b7} ATT&CK T1190,T1595 \u{b7} confidence high"
    );
    assert_eq!(text(get(&objects[4], "type")), "relationship");
    assert_eq!(text(get(&objects[4], "source_ref")), "indicator--720a8576-caad-09d1-de23-2b5464371613");
    assert_eq!(text(get(&objects[4], "target_ref")), "attack-pattern--233e9aa0-1c8e-1431-640c-e84a80017df7");
    for o in &objects {
        let prefix = format!("{}--", text(get(o, "type")));
        assert!(text(get(o, "id")).starts_with(&prefix));
    }
}

#[test]
fn rules_read_profiles_and_acquisition() {
    let profiles = "name: default_ip_remediation\non_success: break\nfilters: \"Alert.Remediation == true\"\n---\nname: crs-inband # off\n";
    let acquis = "listen_addr: '127.0.0.1:7422'\nappsec_configs:\n  - crowdsecurity/appsec-default\n  - crowdsecurity/crs # oob\n  - crowdsecurity/appsec-default\n# crowdsecurity/crs-inband is not enabled\n";
    let operators = "  ip: 10.1.2.3\n  cidr: 192.168.0.0/16\n";
    let doc = rules_document(profiles, acquis, operators);
    let prof = get(&doc, "profiles").map(clone_json).unwrap();
    let names: Vec<String> = items(get(&prof, "names")).iter().map(|j| text(Some(j))).collect();
    assert_eq!(names, vec!["default_ip_remediation", "crs-inband"]);
    let filters: Vec<String> = items(get(&prof, "filters")).iter().map(|j| text(Some(j))).collect();
    assert_eq!(filters, vec!["Alert.Remediation == true"]);
    let appsec = get(&doc, "appsec").map(clone_json).unwrap();
    assert_eq!(text(get(&appsec, "listen_addr")), "127.0.0.1:7422");
    let configs: Vec<String> = items(get(&appsec, "configs")).iter().map(|j| text(Some(j))).collect();
    assert_eq!(configs, vec!["crowdsecurity/appsec-default", "crowdsecurity/crs"]);
    let ops = get(&doc, "operators_parser").map(clone_json).unwrap();
    assert!(matches!(get(&ops, "present"), Some(Json::Bool(true))));
    let cidrs: Vec<String> = items(get(&ops, "cidrs")).iter().map(|j| text(Some(j))).collect();
    assert_eq!(cidrs, vec!["10.1.2.3", "192.168.0.0/16"]);
    let empty = rules_document("", "", " ");
    let appsec = get(&empty, "appsec").map(clone_json).unwrap();
    assert_eq!(text(get(&appsec, "listen_addr")), "127.0.0.1:7422");
}

#[test]
fn lines_follow_str_lines() {
    let v: Vec<char> = "a\r\nb\n\nc\r".chars().collect();
    let got: Vec<String> = std_lines_exec(&v).iter().map(|l| l.iter().collect()).collect();
    assert_eq!(got, vec!["a", "b", "", "c\r"]);
    let v: Vec<char> = "x\n".chars().collect();
    assert_eq!(std_lines_exec(&v).len(), 1);
}

#[test]
fn engine_posture_flags() {
    let p = engine_posture("profiles: appsec_outofband_log_only\nname: crs-inband\n", "INCLUDE_LARGE_UPLOADS: true");
    assert!(p.oob_log_only && p.crs_inband_present && p.include_large_uploads);
    let q = engine_posture("crs-inband only", "include_large_uploads = 0");
    assert!(!q.oob_log_only && !q.crs_inband_present && !q.include_large_uploads);
}

#[test]
fn scrub_clears_nested_secret_keys_once() {
    let inner = obj(&[("Authorization", s("Bearer x")), ("keep", s("yes"))]);
    let v = obj(&[("list", arr(vec![inner])), ("api_key", s("k")), ("note", s("n"))]);
    let once = correlate::scrub(clone_json(&v));
    let blob = json_text(&once);
    assert!(!blob.contains("Authorization") && !blob.contains("api_key"));
    assert!(blob.contains("keep") && blob.contains("note"));
    let twice = correlate::scrub(clone_json(&once));
    assert_eq!(json_text(&twice), blob);
}

#[test]
fn login_reply_token_or_error() {
    let ok = obj(&[("code", s("")), ("token", s("jwt"))]);
    assert_eq!(lapi::login_reply(200, &ok, 9, 64, "http://127.0.0.1:18080"), Ok("jwt".to_string()));
    let legacy = obj(&[("code", s("old"))]);
    assert_eq!(lapi::login_reply(201, &legacy, 9, 64, "u"), Ok("old".to_string()));
    let none = obj(&[("expire", s("x")), ("token", s(""))]);
    assert_eq!(
        lapi::login_reply(200, &none, 9, 64, "u"),
        Err("LAPI login returned no token (keys=expire,token)".to_string())
    );
    let refused = obj(&[("message", s("incorrect Username or Password"))]);
    assert_eq!(
        lapi::login_reply(401, &refused, 9, 64, "http://127.0.0.1:18080"),
        Err("LAPI login HTTP 401 message incorrect Username or Password (login_len=9 pw_len=64 url=http://127.0.0.1:18080)".to_string())
    );
    assert_eq!(
        lapi::login_reply(500, &Json::Null, 0, 0, "u"),
        Err("LAPI login HTTP 500 ?  (login_len=0 pw_len=0 url=u)".to_string())
    );
}

#[test]
fn integrity_records_hash_bytes() {
    let r = integrity_record("profiles", "/etc/crowdsec/profiles.yaml", &FileRead::Bytes(b"waf-console".to_vec()));
    assert_eq!(text(get(&r, "sha1")), "42d410ad6f5efb49cf55a69945f6455f2ac91a53");
    assert_eq!(uint(get(&r, "bytes")), 11);
    let a = integrity_record("x", "/p", &FileRead::Absent);
    assert!(matches!(get(&a, "present"), Some(Json::Bool(false))));
    let long: String = std::iter::repeat('e').take(300).collect();
    let f = integrity_record("x", "/p", &FileRead::Failed(long));
    assert_eq!(text(get(&f, "error")).len(), 200);
}

#[test]
fn utf8_encoding_matches_std() {
    let text = "a\u{e9}\u{20ac}\u{1F600}";
    let v: Vec<char> = text.chars().collect();
    assert_eq!(waf_console::digest::utf8_encode_exec(&v), text.as_bytes().to_vec());
    assert_eq!(waf_console::digest::sha1_text(&"waf-console".chars().collect()), "42d410ad6f5efb49cf55a69945f6455f2ac91a53");
}

#[test]
fn map_source_prefers_alert_then_event() {
    let ev_src = obj(&[("ip", s("9.9.9.9")), ("cn", s("de")), ("city", s("Berlin")), ("asname", s("AS-EV"))]);
    let ev = obj(&[("source", ev_src)]);
    let alert = obj(&[
        ("source", obj(&[("value", s("1.2.3.4")), ("country", s("br"))])),
        ("events", arr(vec![ev])),
        ("cn", s("us")),
    ]);
    let merged = lapi::source_merge(&alert);
    assert_eq!(text(get(&merged, "value")), "1.2.3.4");
    assert_eq!(text(get(&merged, "ip")), "9.9.9.9");
    let (ip, cn, city, asn) = lapi::source_names_exec(&merged, &alert);
    assert_eq!(ip, "9.9.9.9");
    assert_eq!(cn, "DE");
    assert_eq!(city, "Berlin");
    assert_eq!(asn, "AS-EV");
    let bare = obj(&[("cn", s("fr"))]);
    let m2 = lapi::source_merge(&bare);
    let (ip2, cn2, _, _) = lapi::source_names_exec(&m2, &bare);
    assert_eq!((ip2.as_str(), cn2.as_str()), ("", "FR"));
}

#[test]
fn loopback_urls_accept_bracketed_ipv6() {
    assert_eq!(
        assert_loopback_http_url("http://[::1]:6060/metrics/", "CROWDSEC_METRICS"),
        Ok("http://[::1]:6060/metrics".to_string())
    );
    assert_eq!(
        assert_loopback_http_url("http://127.0.0.1:18080/", "CROWDSEC_LAPI"),
        Ok("http://127.0.0.1:18080".to_string())
    );
    assert_eq!(
        assert_loopback_http_url("http://10.0.0.1:8080", "CROWDSEC_LAPI"),
        Err("CROWDSEC_LAPI must target loopback (got 10.0.0.1)".to_string())
    );
}

fn shaped(t: &str, tail: &str) -> bool {
    let c: Vec<char> = t.chars().collect();
    let k: Vec<char> = tail.chars().collect();
    if c.len() < k.len() + 4 {
        return false;
    }
    let off = c.len() - k.len();
    c[..off].iter().enumerate().all(|(i, ch)| ch.is_ascii_digit() || (i == 0 && *ch == '+'))
        && k.iter().zip(&c[off..]).all(|(s, ch)| if *s == '#' { ch.is_ascii_digit() } else { s == ch })
}

#[test]
fn clock_texts_have_their_layouts() {
    assert!(shaped(&utc_now(), "-##-##T##:##:##Z"));
    assert_eq!(utc_now().len(), 20);
    assert!(shaped(&utc_day(), "-##-##"));
    assert!(shaped(&utc_compact(), "####T######Z"));
    assert!(shaped(&utc_stix(), "-##-##T##:##:##.000Z"));
}

#[test]
fn stix_seed_cut_is_checked() {
    let short = obj(&[("findings", arr(vec![s("ok")]))]);
    assert!(stix_seed_cuts_cleanly(&short));
    let mut long = String::from("x");
    for _ in 0..900 {
        long.push('\u{e9}');
    }
    // "[\"x" is 3 bytes, then two-byte characters: byte 800 falls inside one.
    let bad = obj(&[("findings", arr(vec![Json::Str(long)]))]);
    assert!(!stix_seed_cuts_cleanly(&bad));
    let mut even = String::from("xx");
    for _ in 0..900 {
        even.push('\u{e9}');
    }
    let good = obj(&[("findings", arr(vec![Json::Str(even)]))]);
    assert!(stix_seed_cuts_cleanly(&good));
}

#[test]
fn render_skips_disabled_and_non_objects() {
    use_render();
}

fn use_render() {
    let cat = waf_console::catalog::Catalog {
        sites: vec![("example.com".to_string(), obj(&[]))],
        out_of_scope: vec![],
        hosts: vec!["example.com".to_string()],
    };
    let good = obj(&[("host", s("example.com")), ("action", s("bypass_host")), ("enabled", Json::Bool(true))]);
    let off = obj(&[("host", s("not-in-catalog.org")), ("action", s("bypass_host")), ("enabled", Json::Bool(false))]);
    let all = vec![clone_json(&good), off, s("junk")];
    let only = vec![good];
    let a = waf_console::control::render_yaml(&all, &cat, "peritumct/site-filters");
    let b = waf_console::control::render_yaml(&only, &cat, "peritumct/site-filters");
    assert_eq!(a, b);
}

#[test]
fn cidr_text_validates_to_itself() {
    let s1 = waf_console::control::validate_cidr(" 10.1.2.3 ").unwrap();
    assert_eq!(s1, "10.1.2.3/32");
    assert_eq!(waf_console::control::validate_cidr(&s1), Ok(s1.clone()));
    let s2 = waf_console::control::validate_cidr("192.168.7.9/16").unwrap();
    assert_eq!(waf_console::control::validate_cidr(&s2), Ok(s2.clone()));
}
