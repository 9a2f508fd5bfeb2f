//! Decisions of the console's HTTP server: which path a request names, which handler answers
//! it, whether it is admitted, and how an error message maps to a status. The I/O around them
//! (sockets, files, headers) stays with the caller.
use vstd::prelude::*;

use crate::json::{bool_or, first_str, jget, jstr, str_or, str_or_empty, Json};
use crate::netaddr::{ip_parse, parse_ip};
use crate::netguard::{bucket, env_int, env_int_value, parse_url, recent, url_parts, RateLimiter};
use crate::text::{
    before_first, before_first_exec, chars_of, contains, contains_chars, ends_with_chars,
    eq_chars, has_prefix, has_suffix, lower, lower_chars, rfind_char, rfind_char_exec,
    slice_chars, starts_with_chars, string_of, take_at_most, trim, trim_chars,
};

verus! {

/// Whether `c` equals the characters of `lit`.
fn is_lit(c: &Vec<char>, lit: &str) -> (r: bool)
    ensures
        r == (c@ == lit@),
{
    let l = chars_of(lit);
    eq_chars(c, &l)
}

/// The application path a request names: the `/waf` mount prefix is removed.
pub open spec fn route_path_spec(p: Seq<char>) -> Seq<char> {
    if p == "/waf"@ {
        "/"@
    } else if has_prefix(p, "/waf/"@) {
        "/"@ + p.skip("/waf/"@.len() as int)
    } else {
        p
    }
}

/// Strips the `/waf` mount prefix from a request path (`/waf` and `/waf/` name `/`).
pub fn route_path(path: &str) -> (r: String)
    ensures
        r@ == route_path_spec(path@),
{
    let c = chars_of(path);
    if is_lit(&c, "/waf") {
        return String::from_str("/");
    }
    let pre = chars_of("/waf/");
    if starts_with_chars(&c, &pre) {
        let mut out = chars_of("/");
        let rest = slice_chars(&c, pre.len(), c.len());
        assert(rest@ =~= path@.skip("/waf/"@.len() as int));
        crate::text::append_chars(&mut out, &rest);
        return string_of(&out);
    }
    string_of(&c)
}

/// The `Content-Type` for a static asset, chosen by its file extension.
pub open spec fn content_type_spec(name: Seq<char>) -> Seq<char> {
    if has_suffix(name, ".html"@) {
        "text/html; charset=utf-8"@
    } else if has_suffix(name, ".css"@) {
        "text/css; charset=utf-8"@
    } else if has_suffix(name, ".js"@) {
        "application/javascript; charset=utf-8"@
    } else if has_suffix(name, ".svg"@) {
        "image/svg+xml"@
    } else if has_suffix(name, ".png"@) {
        "image/png"@
    } else if has_suffix(name, ".json"@) {
        "application/json; charset=utf-8"@
    } else {
        "application/octet-stream"@
    }
}

/// The `Content-Type` header for a static asset name.
pub fn content_type_for(name: &str) -> (r: &'static str)
    ensures
        r@ == content_type_spec(name@),
{
    let c = chars_of(name);
    if ends_with_chars(&c, &chars_of(".html")) {
        "text/html; charset=utf-8"
    } else if ends_with_chars(&c, &chars_of(".css")) {
        "text/css; charset=utf-8"
    } else if ends_with_chars(&c, &chars_of(".js")) {
        "application/javascript; charset=utf-8"
    } else if ends_with_chars(&c, &chars_of(".svg")) {
        "image/svg+xml"
    } else if ends_with_chars(&c, &chars_of(".png")) {
        "image/png"
    } else if ends_with_chars(&c, &chars_of(".json")) {
        "application/json; charset=utf-8"
    } else {
        "application/octet-stream"
    }
}

/// Whether an error message describes a fault of the request rather than of a backend.
pub open spec fn client_err_spec(msg: Seq<char>) -> bool {
    ||| contains(msg, "invalid"@)
    ||| contains(msg, "required"@)
    ||| contains(msg, "not found"@)
    ||| contains(msg, "forbidden"@)
    ||| contains(msg, "out of"@)
    ||| contains(msg, "must"@)
    ||| contains(msg, "maximum"@)
    ||| contains(msg, "already exists"@)
}

/// Whether `msg` reports a client error (it names one of the request-fault markers).
pub fn is_client_err(msg: &str) -> (r: bool)
    ensures
        r == client_err_spec(msg@),
{
    let c = chars_of(msg);
    contains_chars(&c, &chars_of("invalid")) || contains_chars(&c, &chars_of("required"))
        || contains_chars(&c, &chars_of("not found")) || contains_chars(&c, &chars_of("forbidden"))
        || contains_chars(&c, &chars_of("out of")) || contains_chars(&c, &chars_of("must"))
        || contains_chars(&c, &chars_of("maximum")) || contains_chars(
        &c,
        &chars_of("already exists"),
    )
}

/// The HTTP status answering a failed operation: 400 for a client error, else 502.
pub fn error_status(msg: &str) -> (r: u16)
    ensures
        r == (if client_err_spec(msg@) { 400u16 } else { 502u16 }),
{
    if is_client_err(msg) {
        400
    } else {
        502
    }
}

/// A character allowed in a download file name; others become `_`.
pub open spec fn safe_char(c: char) -> char {
    if ('a' <= c && c <= 'z') || ('A' <= c && c <= 'Z') || ('0' <= c && c <= '9') || c == '.'
        || c == '_' || c == '-' {
        c
    } else {
        '_'
    }
}

/// A download file name: at most 80 characters, each outside `[A-Za-z0-9._-]` replaced by `_`.
pub open spec fn safe_name_spec(name: Seq<char>) -> Seq<char> {
    Seq::new(take_at_most(name, 80).len(), |i: int| safe_char(name[i]))
}

/// The file name offered for a JSON download.
pub fn safe_download_name(name: &str) -> (r: String)
    ensures
        r@ == safe_name_spec(name@),
{
    let c = chars_of(name);
    let n: usize = if c.len() < 80 {
        c.len()
    } else {
        80
    };
    let mut out: Vec<char> = Vec::new();
    let mut i: usize = 0;
    while i < n
        invariant
            n <= c.len(),
            n == take_at_most(c@, 80).len(),
            i <= n,
            out@ == Seq::new(i as nat, |k: int| safe_char(c@[k])),
        decreases n - i,
    {
        let ch = c[i];
        let s = if ('a' <= ch && ch <= 'z') || ('A' <= ch && ch <= 'Z') || ('0' <= ch && ch <= '9')
            || ch == '.' || ch == '_' || ch == '-' {
            ch
        } else {
            '_'
        };
        out.push(s);
        assert(out@ =~= Seq::new((i + 1) as nat, |k: int| safe_char(c@[k])));
        i = i + 1;
    }
    assert(out@ =~= safe_name_spec(name@));
    string_of(&out)
}

/// The key a request is rate-limited by: the first `X-Forwarded-For` entry, else the peer
/// address, else `unknown`.
pub open spec fn client_key_spec(forwarded: Option<Seq<char>>, peer: Option<Seq<char>>) -> Seq<char> {
    match forwarded {
        Some(f) => trim(before_first(f, ',')),
        None => match peer {
            Some(p) => p,
            None => "unknown"@,
        },
    }
}

/// The rate-limit key of a request. `forwarded` is the `X-Forwarded-For` header when it is
/// readable text, `peer` the peer address.
pub fn client_key(forwarded: Option<&str>, peer: Option<&str>) -> (r: String)
    ensures
        r@ == client_key_spec(
            match forwarded {
                Some(f) => Some(f@),
                None => None,
            },
            match peer {
                Some(p) => Some(p@),
                None => None,
            },
        ),
{
    match forwarded {
        Some(f) => {
            let c = chars_of(f);
            let first = before_first_exec(&c, ',');
            string_of(&trim_chars(&first))
        },
        None => match peer {
            Some(p) => String::from_str(p),
            None => String::from_str("unknown"),
        },
    }
}

} // verus!

verus! {

/// The host part of a `Host` header: first comma entry, trimmed, lowercased, before any `:`.
pub open spec fn host_only(host: Seq<char>) -> Seq<char> {
    before_first(lower(trim(before_first(host, ','))), ':')
}

/// What the cross-origin guard answers for a mutating request: `None` to let it through,
/// else the refusal message.
pub open spec fn guard_spec(host: Seq<char>, origin: Seq<char>) -> Option<Seq<char>> {
    let o = trim(origin);
    if o.len() == 0 {
        None
    } else {
        match url_parts(o) {
            None => Some("invalid origin"@),
            Some((scheme, _, _, h)) => if scheme != "http"@ && scheme != "https"@ {
                Some("invalid origin"@)
            } else {
                let oh = lower(
                    match h {
                        Some(x) => x,
                        None => Seq::empty(),
                    },
                );
                if oh.len() == 0 {
                    Some("invalid origin"@)
                } else if oh == host_only(host) || oh == "127.0.0.1"@ || oh == "localhost"@ || oh
                    == "::1"@ {
                    None
                } else {
                    Some("origin mismatch"@)
                }
            },
        }
    }
}

/// The host part of a `Host` header.
fn host_only_exec(host: &str) -> (r: Vec<char>)
    ensures
        r@ == host_only(host@),
{
    let c = chars_of(host);
    let first = before_first_exec(&c, ',');
    let t = trim_chars(&first);
    let l = lower_chars(&t);
    before_first_exec(&l, ':')
}

/// Refuses a mutating request whose `Origin` is not this console: the origin must be an
/// http(s) URL whose host is the `Host` header's host or a loopback name. No `Origin` passes.
pub fn mutation_guard(host: &str, origin: &str) -> (r: Option<&'static str>)
    ensures
        match r {
            Some(m) => guard_spec(host@, origin@) == Some(m@),
            None => guard_spec(host@, origin@) is None,
        },
{
    let oc = chars_of(origin);
    let o = trim_chars(&oc);
    if o.len() == 0 {
        return None;
    }
    let os = string_of(&o);
    match parse_url(os.as_str()) {
        None => Some("invalid origin"),
        Some((scheme, _user, _pw, h)) => {
            let sc = chars_of(scheme.as_str());
            if !is_lit(&sc, "http") && !is_lit(&sc, "https") {
                return Some("invalid origin");
            }
            let hv = match h {
                Some(x) => chars_of(x.as_str()),
                None => Vec::new(),
            };
            let oh = lower_chars(&hv);
            if oh.len() == 0 {
                return Some("invalid origin");
            }
            let ho = host_only_exec(host);
            if eq_chars(&oh, &ho) || is_lit(&oh, "127.0.0.1") || is_lit(&oh, "localhost")
                || is_lit(&oh, "::1") {
                None
            } else {
                Some("origin mismatch")
            }
        },
    }
}

/// Whether a request's `Content-Type` may carry a JSON body: absent, `application/json` or
/// `text/json` (parameters and case ignored).
pub open spec fn media_ok_spec(ctype: Seq<char>) -> bool {
    let t = lower(trim(before_first(ctype, ';')));
    t.len() == 0 || t == "application/json"@ || t == "text/json"@
}

/// Whether a POST's `Content-Type` is acceptable.
pub fn media_type_ok(ctype: &str) -> (r: bool)
    ensures
        r == media_ok_spec(ctype@),
{
    let c = chars_of(ctype);
    let first = before_first_exec(&c, ';');
    let t = lower_chars(&trim_chars(&first));
    t.len() == 0 || is_lit(&t, "application/json") || is_lit(&t, "text/json")
}

/// The GET endpoints rate-limited as heavy.
pub open spec fn heavy_spec(p: Seq<char>) -> bool {
    ||| p == "/api/dashboard"@
    ||| p == "/api/coverage"@
    ||| p == "/api/correlation"@
    ||| p == "/api/correlation/stix"@
    ||| p == "/api/correlation/misp"@
    ||| p == "/api/correlation/thehive"@
    ||| p == "/api/overview"@
}

/// Whether a GET of `path` counts against the heavy-request limiter.
pub fn is_heavy_get(path: &str) -> (r: bool)
    ensures
        r == heavy_spec(path@),
{
    let c = chars_of(path);
    is_lit(&c, "/api/dashboard") || is_lit(&c, "/api/coverage") || is_lit(&c, "/api/correlation")
        || is_lit(&c, "/api/correlation/stix") || is_lit(&c, "/api/correlation/misp") || is_lit(
        &c,
        "/api/correlation/thehive",
    ) || is_lit(&c, "/api/overview")
}

/// Whether the server may listen on `bind`: only the loopback addresses are accepted.
pub fn bind_allowed(bind: &str) -> (r: bool)
    ensures
        r == (bind@ == "127.0.0.1"@ || bind@ == "::1"@),
{
    let c = chars_of(bind);
    is_lit(&c, "127.0.0.1") || is_lit(&c, "::1")
}

/// The port to listen on: the setting when it reads as a `u16`, else 18990.
pub fn listen_port(raw: Option<&str>) -> (r: u16)
    ensures
        r as int == match raw {
            Some(s) => match crate::number::parse_int_spec(s@, false, 0, 65535) {
                Ok(v) => v,
                Err(_) => 18990,
            },
            None => 18990,
        },
{
    match raw {
        Some(s) => {
            let c = chars_of(s);
            match crate::number::parse_int(&c, false, 0, 65535) {
                Ok(v) => v as u16,
                Err(_) => 18990,
            }
        },
        None => 18990,
    }
}

} // verus!

verus! {

/// The API endpoints answered to GET.
#[derive(Clone, Copy, PartialEq, Eq, Structural, Debug)]
pub enum ApiGet {
    Health,
    Overview,
    Dashboard,
    Decisions,
    Alerts,
    Domains,
    Engine,
    WorldMap,
    Rules,
    Allowlists,
    Metrics,
    Coverage,
    Correlation,
    CorrelationStix,
    CorrelationMisp,
    CorrelationTheHive,
    Sites,
    Filters,
    HubAppsecRules,
    Admin,
    Routes,
}

/// What answers a GET: a static asset (file name under the static directory, and whether
/// it may be cached), an API endpoint, or 404.
pub enum GetRoute {
    Asset(String, bool),
    Api(ApiGet),
    NotFound,
}

/// The mathematical form of a [`GetRoute`].
pub enum GetRouteV {
    Asset(Seq<char>, bool),
    Api(ApiGet),
    NotFound,
}

impl View for GetRoute {
    type V = GetRouteV;

    open spec fn view(&self) -> GetRouteV {
        match self {
            GetRoute::Asset(n, c) => GetRouteV::Asset(n@, *c),
            GetRoute::Api(a) => GetRouteV::Api(*a),
            GetRoute::NotFound => GetRouteV::NotFound,
        }
    }
}

/// The API endpoint a GET path names.
pub open spec fn api_get_spec(p: Seq<char>) -> Option<ApiGet> {
    if p == "/api/health"@ {
        Some(ApiGet::Health)
    } else if p == "/api/overview"@ {
        Some(ApiGet::Overview)
    } else if p == "/api/dashboard"@ {
        Some(ApiGet::Dashboard)
    } else if p == "/api/decisions"@ {
        Some(ApiGet::Decisions)
    } else if p == "/api/alerts"@ {
        Some(ApiGet::Alerts)
    } else if p == "/api/domains"@ {
        Some(ApiGet::Domains)
    } else if p == "/api/engine"@ {
        Some(ApiGet::Engine)
    } else if p == "/api/map"@ {
        Some(ApiGet::WorldMap)
    } else if p == "/api/rules"@ {
        Some(ApiGet::Rules)
    } else if p == "/api/allowlists"@ {
        Some(ApiGet::Allowlists)
    } else if p == "/api/metrics"@ {
        Some(ApiGet::Metrics)
    } else if p == "/api/coverage"@ {
        Some(ApiGet::Coverage)
    } else if p == "/api/correlation"@ {
        Some(ApiGet::Correlation)
    } else if p == "/api/correlation/stix"@ {
        Some(ApiGet::CorrelationStix)
    } else if p == "/api/correlation/misp"@ {
        Some(ApiGet::CorrelationMisp)
    } else if p == "/api/correlation/thehive"@ {
        Some(ApiGet::CorrelationTheHive)
    } else if p == "/api/sites"@ {
        Some(ApiGet::Sites)
    } else if p == "/api/filters"@ || p == "/api/policies"@ {
        Some(ApiGet::Filters)
    } else if p == "/api/hub/appsec-rules"@ {
        Some(ApiGet::HubAppsecRules)
    } else if p == "/api/admin"@ {
        Some(ApiGet::Admin)
    } else if p == "/api/routes"@ || p == "/api/tunnels"@ {
        Some(ApiGet::Routes)
    } else {
        None
    }
}

/// The API endpoint a GET path names.
fn api_get(c: &Vec<char>) -> (r: Option<ApiGet>)
    ensures
        r == api_get_spec(c@),
{
    if is_lit(c, "/api/health") {
        Some(ApiGet::Health)
    } else if is_lit(c, "/api/overview") {
        Some(ApiGet::Overview)
    } else if is_lit(c, "/api/dashboard") {
        Some(ApiGet::Dashboard)
    } else if is_lit(c, "/api/decisions") {
        Some(ApiGet::Decisions)
    } else if is_lit(c, "/api/alerts") {
        Some(ApiGet::Alerts)
    } else if is_lit(c, "/api/domains") {
        Some(ApiGet::Domains)
    } else if is_lit(c, "/api/engine") {
        Some(ApiGet::Engine)
    } else if is_lit(c, "/api/map") {
        Some(ApiGet::WorldMap)
    } else if is_lit(c, "/api/rules") {
        Some(ApiGet::Rules)
    } else if is_lit(c, "/api/allowlists") {
        Some(ApiGet::Allowlists)
    } else if is_lit(c, "/api/metrics") {
        Some(ApiGet::Metrics)
    } else if is_lit(c, "/api/coverage") {
        Some(ApiGet::Coverage)
    } else if is_lit(c, "/api/correlation") {
        Some(ApiGet::Correlation)
    } else if is_lit(c, "/api/correlation/stix") {
        Some(ApiGet::CorrelationStix)
    } else if is_lit(c, "/api/correlation/misp") {
        Some(ApiGet::CorrelationMisp)
    } else if is_lit(c, "/api/correlation/thehive") {
        Some(ApiGet::CorrelationTheHive)
    } else if is_lit(c, "/api/sites") {
        Some(ApiGet::Sites)
    } else if is_lit(c, "/api/filters") || is_lit(c, "/api/policies") {
        Some(ApiGet::Filters)
    } else if is_lit(c, "/api/hub/appsec-rules") {
        Some(ApiGet::HubAppsecRules)
    } else if is_lit(c, "/api/admin") {
        Some(ApiGet::Admin)
    } else if is_lit(c, "/api/routes") || is_lit(c, "/api/tunnels") {
        Some(ApiGet::Routes)
    } else {
        None
    }
}

/// The last `/`-separated segment of `p` (`rsplit('/').next()`).
pub open spec fn last_segment(p: Seq<char>) -> Seq<char> {
    p.skip(rfind_char(p, '/') + 1)
}

/// The last `/`-separated segment of `c`.
fn last_segment_exec(c: &Vec<char>) -> (r: Vec<char>)
    ensures
        r@ == last_segment(c@),
{
    match rfind_char_exec(c, '/') {
        Some(i) => {
            let n = c.len();
            assert(i < n);
            let r = slice_chars(c, i + 1, n);
            assert(r@ =~= c@.skip(i + 1));
            r
        },
        None => {
            assert(c@.skip(0) =~= c@);
            c.clone()
        },
    }
}

/// The last `/`-separated segment of `c`.
pub fn last_segment_pub(c: &Vec<char>) -> (r: Vec<char>)
    ensures
        r@ == last_segment(c@),
{
    last_segment_exec(c)
}

/// The top-level asset files served from the static directory root.
pub open spec fn root_asset(p: Seq<char>) -> bool {
    ||| p == "/app.css"@
    ||| p == "/app.js"@
    ||| p == "/i18n.js"@
    ||| p == "/world.js"@
    ||| p == "/map.js"@
    ||| p == "/logo.svg"@
    ||| p == "/logo.png"@
}

/// Which handler answers a GET of the application path `p`.
pub open spec fn get_route_spec(p: Seq<char>) -> GetRouteV {
    if p == "/"@ || p == "/index.html"@ {
        GetRouteV::Asset("index.html"@, false)
    } else if has_prefix(p, "/static/"@) {
        GetRouteV::Asset(last_segment(p), true)
    } else if root_asset(p) {
        GetRouteV::Asset(p.drop_first(), true)
    } else if has_prefix(p, "/locales/"@) {
        let name = last_segment(p);
        if name != "en.json"@ && name != "pt-BR.json"@ {
            GetRouteV::NotFound
        } else {
            GetRouteV::Asset("locales/"@ + name, true)
        }
    } else {
        match api_get_spec(p) {
            Some(a) => GetRouteV::Api(a),
            None => GetRouteV::NotFound,
        }
    }
}

/// Routes a GET of the application path `path` (as [`route_path`] gives it).
pub fn get_route(path: &str) -> (r: GetRoute)
    ensures
        r@ == get_route_spec(path@),
{
    let c = chars_of(path);
    if is_lit(&c, "/") || is_lit(&c, "/index.html") {
        return GetRoute::Asset(String::from_str("index.html"), false);
    }
    if starts_with_chars(&c, &chars_of("/static/")) {
        return GetRoute::Asset(string_of(&last_segment_exec(&c)), true);
    }
    if is_lit(&c, "/app.css") || is_lit(&c, "/app.js") || is_lit(&c, "/i18n.js") || is_lit(
        &c,
        "/world.js",
    ) || is_lit(&c, "/map.js") || is_lit(&c, "/logo.svg") || is_lit(&c, "/logo.png") {
        proof {
            reveal_strlit("/app.css");
            reveal_strlit("/app.js");
            reveal_strlit("/i18n.js");
            reveal_strlit("/world.js");
            reveal_strlit("/map.js");
            reveal_strlit("/logo.svg");
            reveal_strlit("/logo.png");
        }
        let rest = slice_chars(&c, 1, c.len());
        assert(rest@ =~= c@.drop_first());
        return GetRoute::Asset(string_of(&rest), true);
    }
    if starts_with_chars(&c, &chars_of("/locales/")) {
        let name = last_segment_exec(&c);
        if !is_lit(&name, "en.json") && !is_lit(&name, "pt-BR.json") {
            return GetRoute::NotFound;
        }
        let mut full = chars_of("locales/");
        crate::text::append_chars(&mut full, &name);
        return GetRoute::Asset(string_of(&full), true);
    }
    match api_get(&c) {
        Some(a) => GetRoute::Api(a),
        None => GetRoute::NotFound,
    }
}

/// The API endpoints answered to POST.
#[derive(Clone, Copy, PartialEq, Eq, Structural, Debug)]
pub enum PostRoute {
    DecisionDelete,
    AllowlistCheck,
    FilterSave,
    FilterUpdate,
    FilterDelete,
    FilterToggle,
    AllowlistAdd,
    AllowlistRemove,
    DecisionAdd,
    RouteUpsert,
    RouteDelete,
    TunnelUpsert,
    TunnelDelete,
    NotFound,
}

/// Which handler answers a POST of the application path `p`.
pub open spec fn post_route_spec(p: Seq<char>) -> PostRoute {
    if p == "/api/decisions/delete"@ {
        PostRoute::DecisionDelete
    } else if p == "/api/allowlists/check"@ {
        PostRoute::AllowlistCheck
    } else if p == "/api/filters"@ || p == "/api/policies"@ {
        PostRoute::FilterSave
    } else if p == "/api/filters/update"@ || p == "/api/policies/update"@ {
        PostRoute::FilterUpdate
    } else if p == "/api/filters/delete"@ || p == "/api/policies/delete"@ {
        PostRoute::FilterDelete
    } else if p == "/api/filters/toggle"@ {
        PostRoute::FilterToggle
    } else if p == "/api/allowlists/items"@ {
        PostRoute::AllowlistAdd
    } else if p == "/api/allowlists/items/delete"@ {
        PostRoute::AllowlistRemove
    } else if p == "/api/decisions"@ {
        PostRoute::DecisionAdd
    } else if p == "/api/routes"@ || p == "/api/routes/update"@ {
        PostRoute::RouteUpsert
    } else if p == "/api/routes/delete"@ {
        PostRoute::RouteDelete
    } else if p == "/api/tunnels"@ || p == "/api/tunnels/update"@ {
        PostRoute::TunnelUpsert
    } else if p == "/api/tunnels/delete"@ {
        PostRoute::TunnelDelete
    } else {
        PostRoute::NotFound
    }
}

/// Routes a POST of the application path `path`.
pub fn post_route(path: &str) -> (r: PostRoute)
    ensures
        r == post_route_spec(path@),
{
    let c = chars_of(path);
    if is_lit(&c, "/api/decisions/delete") {
        PostRoute::DecisionDelete
    } else if is_lit(&c, "/api/allowlists/check") {
        PostRoute::AllowlistCheck
    } else if is_lit(&c, "/api/filters") || is_lit(&c, "/api/policies") {
        PostRoute::FilterSave
    } else if is_lit(&c, "/api/filters/update") || is_lit(&c, "/api/policies/update") {
        PostRoute::FilterUpdate
    } else if is_lit(&c, "/api/filters/delete") || is_lit(&c, "/api/policies/delete") {
        PostRoute::FilterDelete
    } else if is_lit(&c, "/api/filters/toggle") {
        PostRoute::FilterToggle
    } else if is_lit(&c, "/api/allowlists/items") {
        PostRoute::AllowlistAdd
    } else if is_lit(&c, "/api/allowlists/items/delete") {
        PostRoute::AllowlistRemove
    } else if is_lit(&c, "/api/decisions") {
        PostRoute::DecisionAdd
    } else if is_lit(&c, "/api/routes") || is_lit(&c, "/api/routes/update") {
        PostRoute::RouteUpsert
    } else if is_lit(&c, "/api/routes/delete") {
        PostRoute::RouteDelete
    } else if is_lit(&c, "/api/tunnels") || is_lit(&c, "/api/tunnels/update") {
        PostRoute::TunnelUpsert
    } else if is_lit(&c, "/api/tunnels/delete") {
        PostRoute::TunnelDelete
    } else {
        PostRoute::NotFound
    }
}

} // verus!

verus! {

/// The address a ban removal names: the trimmed `ip` field, which must be present and an IP.
pub open spec fn decision_ip_spec(p: crate::json::JsonV) -> Result<Seq<char>, Seq<char>> {
    let ip = trim(str_or_empty(p, "ip"@));
    if ip.len() == 0 {
        Err("ip required"@)
    } else if ip_parse(ip) is None {
        Err("invalid ip"@)
    } else {
        Ok(ip)
    }
}

/// The IP address of a ban-removal request, or the refusal message.
pub fn decision_ip(payload: &Json) -> (r: Result<String, String>)
    ensures
        match r {
            Ok(s) => decision_ip_spec(payload@) == Ok::<Seq<char>, Seq<char>>(s@),
            Err(e) => decision_ip_spec(payload@) == Err::<Seq<char>, Seq<char>>(e@),
        },
{
    let raw = crate::json::get_str_or_empty(payload, "ip");
    let ip = trim_chars(&chars_of(raw.as_str()));
    if ip.len() == 0 {
        return Err(String::from_str("ip required"));
    }
    let s = string_of(&ip);
    match parse_ip(s.as_str()) {
        None => Err(String::from_str("invalid ip")),
        Some(_) => Ok(s),
    }
}

/// The address an allowlist check names: the trimmed `ip` field, which must be an IP.
pub open spec fn check_ip_spec(p: crate::json::JsonV) -> Result<Seq<char>, Seq<char>> {
    let ip = trim(str_or_empty(p, "ip"@));
    if ip_parse(ip) is None {
        Err("invalid ip"@)
    } else {
        Ok(ip)
    }
}

/// The IP address of an allowlist-check request, or the refusal message.
pub fn check_ip(payload: &Json) -> (r: Result<String, String>)
    ensures
        match r {
            Ok(s) => check_ip_spec(payload@) == Ok::<Seq<char>, Seq<char>>(s@),
            Err(e) => check_ip_spec(payload@) == Err::<Seq<char>, Seq<char>>(e@),
        },
{
    let raw = crate::json::get_str_or_empty(payload, "ip");
    let s = string_of(&trim_chars(&chars_of(raw.as_str())));
    match parse_ip(s.as_str()) {
        None => Err(String::from_str("invalid ip")),
        Some(_) => Ok(s),
    }
}

/// A policy save is an update when it carries a non-empty string `id`.
pub fn filter_is_update(payload: &Json) -> (r: bool)
    ensures
        r == match jstr(jget(payload@, "id"@)) {
            Some(s) => s.len() > 0,
            None => false,
        },
{
    match crate::json::get_str(payload, "id") {
        Some(s) => chars_of(s.as_str()).len() > 0,
        None => false,
    }
}

/// The arguments of a policy toggle: the `id` text (empty when absent) and the `enabled`
/// flag (false when absent).
pub fn toggle_args(payload: &Json) -> (r: (String, bool))
    ensures
        r.0@ == str_or_empty(payload@, "id"@),
        r.1 == bool_or(payload@, "enabled"@, false),
{
    (crate::json::get_str_or_empty(payload, "id"), crate::json::get_bool_or(payload, "enabled", false))
}

/// The arguments of an allowlist change: the network (`cidr`, else `ip`) and the reason
/// (`cso-console` when absent).
pub fn allowlist_args(payload: &Json) -> (r: (String, String))
    ensures
        r.0@ == first_str(payload@, "cidr"@, "ip"@),
        r.1@ == str_or(payload@, "reason"@, "cso-console"@),
{
    let cidr = crate::json::first_str_of(payload, "cidr", "ip");
    let reason = crate::json::get_str_or(payload, "reason", "cso-console");
    (cidr, string_of(&reason))
}

/// What a route or tunnel removal names: its `id`, else its `name`.
pub fn delete_target(payload: &Json) -> (r: String)
    ensures
        r@ == first_str(payload@, "id"@, "name"@),
{
    crate::json::first_str_of(payload, "id", "name")
}

} // verus!

verus! {

/// How a request reaches the server.
#[derive(Clone, Copy, PartialEq, Eq, Structural, Debug)]
pub enum HttpMethod {
    Get,
    Post,
    Other,
}

/// The server's shared state: where static assets live and the two request limiters.
pub struct AppState {
    pub static_dir: String,
    pub post_limiter: RateLimiter,
    pub heavy_limiter: RateLimiter,
}

/// Whether limiter `l` admits one more request from `key` at `now`.
pub open spec fn lets_through(l: RateLimiter, key: Seq<char>, now: int) -> bool {
    recent(bucket(l.hits_spec(), key), now, l.window_spec() as int).len() < l.limit_spec()
}

/// The bucket of `key` in `l` after a request at `now` (admitted or not).
pub open spec fn after_request(l: RateLimiter, key: Seq<char>, now: int) -> Seq<u64> {
    let r = recent(bucket(l.hits_spec(), key), now, l.window_spec() as int);
    if lets_through(l, key, now) {
        r.push(now as u64)
    } else {
        r
    }
}

/// Why a request is refused before any handler runs, as status and message; `None` admits it.
pub open spec fn screen_spec(
    post: RateLimiter,
    heavy: RateLimiter,
    m: HttpMethod,
    path: Seq<char>,
    key: Seq<char>,
    now: int,
    host: Seq<char>,
    origin: Seq<char>,
    ctype: Seq<char>,
) -> Option<(int, Seq<char>)> {
    if m == HttpMethod::Get && heavy_spec(path) {
        if !lets_through(heavy, key, now) {
            Some((429, "rate limit exceeded (heavy-get)"@))
        } else {
            None
        }
    } else if m == HttpMethod::Post {
        if !lets_through(post, key, now) {
            Some((429, "rate limit exceeded (post)"@))
        } else {
            match guard_spec(host, origin) {
                Some(msg) => Some((403, msg)),
                None => if !media_ok_spec(ctype) {
                    Some((415, "unsupported media type"@))
                } else {
                    None
                },
            }
        }
    } else {
        None
    }
}

impl AppState {
    /// Both limiters are well formed.
    pub open spec fn wf(&self) -> bool {
        self.post_limiter.wf() && self.heavy_limiter.wf()
    }

    /// The server state: the static directory, and per-minute limits for POSTs and heavy GETs
    /// read from their settings (60 and 40 when unset or not integers, clamped to 5..=600).
    pub fn new(static_dir: String, post_rate: &str, heavy_rate: &str) -> (r: AppState)
        ensures
            r.wf(),
            r.static_dir@ == static_dir@,
            r.post_limiter.limit_spec() == env_int_value(post_rate@, 60, 5, 600),
            r.heavy_limiter.limit_spec() == env_int_value(heavy_rate@, 40, 5, 600),
            r.post_limiter.window_spec() == 60000,
            r.heavy_limiter.window_spec() == 60000,
            forall|k: Seq<char>| #[trigger] bucket(r.post_limiter.hits_spec(), k).len() == 0,
            forall|k: Seq<char>| #[trigger] bucket(r.heavy_limiter.hits_spec(), k).len() == 0,
    {
        let p = env_int(post_rate, 60, 5, 600);
        let h = env_int(heavy_rate, 40, 5, 600);
        AppState {
            static_dir,
            post_limiter: RateLimiter::new(p as usize, 60000),
            heavy_limiter: RateLimiter::new(h as usize, 60000),
        }
    }

    /// Admission of a request before its handler runs. A GET of a heavy endpoint is counted
    /// against the heavy limiter; a POST against the POST limiter, then checked by the
    /// cross-origin guard and for a JSON media type. Answers the refusal (status, message),
    /// or `None` to go on. `now_ms` is a monotonic clock in milliseconds.
    pub fn screen(
        &mut self,
        method: HttpMethod,
        path: &str,
        key: &str,
        now_ms: u64,
        host: &str,
        origin: &str,
        ctype: &str,
    ) -> (r: Option<(u16, String)>)
        requires
            old(self).wf(),
        ensures
            final(self).wf(),
            final(self).static_dir == old(self).static_dir,
            match r {
                Some((c, m)) => screen_spec(old(self).post_limiter, old(self).heavy_limiter, method, path@, key@, now_ms as int, host@, origin@, ctype@)
                    == Some((c as int, m@)),
                None => screen_spec(old(self).post_limiter, old(self).heavy_limiter, method, path@, key@, now_ms as int, host@, origin@, ctype@) is None,
            },
            method == HttpMethod::Get && heavy_spec(path@) ==> {
                &&& final(self).post_limiter == old(self).post_limiter
                &&& final(self).heavy_limiter.limit_spec() == old(self).heavy_limiter.limit_spec()
                &&& final(self).heavy_limiter.window_spec() == old(self).heavy_limiter.window_spec()
                &&& bucket(final(self).heavy_limiter.hits_spec(), key@) == after_request(old(self).heavy_limiter, key@, now_ms as int)
            },
            method == HttpMethod::Post ==> {
                &&& final(self).heavy_limiter == old(self).heavy_limiter
                &&& final(self).post_limiter.limit_spec() == old(self).post_limiter.limit_spec()
                &&& final(self).post_limiter.window_spec() == old(self).post_limiter.window_spec()
                &&& bucket(final(self).post_limiter.hits_spec(), key@) == after_request(old(self).post_limiter, key@, now_ms as int)
            },
            !(method == HttpMethod::Post) && !(method == HttpMethod::Get && heavy_spec(path@)) ==> *final(self) == *old(self),
    {
        if method == HttpMethod::Get && is_heavy_get(path) {
            if !self.heavy_limiter.allow(key, now_ms) {
                return Some((429, String::from_str("rate limit exceeded (heavy-get)")));
            }
            return None;
        }
        if method == HttpMethod::Post {
            if !self.post_limiter.allow(key, now_ms) {
                return Some((429, String::from_str("rate limit exceeded (post)")));
            }
            match mutation_guard(host, origin) {
                Some(msg) => return Some((403, String::from_str(msg))),
                None => {},
            }
            if !media_type_ok(ctype) {
                return Some((415, String::from_str("unsupported media type")));
            }
        }
        None
    }
}

} // verus!
