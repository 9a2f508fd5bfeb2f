//! Operator HTTP routes and TCP / local tunnels: validation, normalization, rendering.
use vstd::prelude::*;

use crate::json::{
    bool_or, clone_fields, clone_json, fview, get, get_bool_or, get_i64, get_str, get_str_or, get_str_or_empty,
    field_is, is_object, jviews, jget, ji64, jstr, lemma_object_fview, obj_set, set_entry, set_field, str_or, str_or_empty, vget, Json,
    JsonV,
};
use crate::netaddr::{ip_parse, net_contains, net_has, parse_ip};
use crate::number::{int_error_text, parse_int, parse_int_spec};
use crate::pattern::{re_is_match, regex_match};
use crate::text::{
    append_chars, append_str, chars_of, concat_chars, contains, contains_chars, eq_chars, find_char, find_char_exec,
    find_str, find_str_exec, first_hit, first_hit_exec, has_prefix, has_suffix, join_space, lower,
    lower_chars, rfind_char, rfind_char_exec, slice_chars, starts_with_chars, ends_with_chars,
    string_of, trim, trim_chars, views, join_with_space,
};
use crate::netguard::{strip_trailing, strip_trailing_exec};
use crate::control::{decimal, decimal_exec, int_text, int_text_exec};

verus! {

/// Route names.
pub const ROUTE_NAME_PATTERN: &'static str = "^[a-z0-9][a-z0-9._-]{0,47}$";

/// Route hosts.
pub const ROUTE_HOST_PATTERN: &'static str = "^[a-z0-9][a-z0-9.-]{0,80}$";

/// Route path prefixes.
pub const ROUTE_PATH_PATTERN: &'static str = "^/[A-Za-z0-9._~/=-]{0,127}$";

/// Teleport node names.
pub const NODE_PATTERN: &'static str = "^[A-Za-z0-9._@-]{3,80}$";

/// YAML scalars written without quotes.
pub const YAML_SAFE_PATTERN: &'static str = "^[A-Za-z0-9._:/-]+$";

/// The NetBird overlay network services may live on.
pub const NETBIRD_NET: &'static str = "100.74.0.0/16";

/// Names reserved when `WAF_ROUTE_RESERVED` is unset.
pub const DEFAULT_RESERVED: &'static str = "waf-admin,waf-console,waf-admin-netbird,expertsforensic,expertsforensic-root,expertsforensic-netbird,web-catchall,netbird-grpc,netbird-device,netbird-api,netbird-dashboard,keycloak-legal,keycloak-admin-fix,keycloak-staging-root,keycloak-app,keycloak-root,teleport-auth-passthrough";

/// Hosts denied when `WAF_ROUTE_DENY_HOSTS` is unset.
pub const DEFAULT_DENY_HOSTS: &'static str = "bird.expertsforensic.com,birdsso.expertsforensic.com,farmlinkstage";

/// Tokens no route input may contain.
pub open spec fn route_forbidden() -> Seq<Seq<char>> {
    seq![
        "disablebodyinspection"@,
        "include_large_uploads"@,
        "crs-inband"@,
        "nomad job run"@,
        "fail_closed"@,
        "farmlinkstage"@,
        "crowdsec-bouncer"@,
    ]
}

/// The route forbidden tokens, in order.
pub fn route_forbidden_list() -> (v: Vec<&'static str>)
    ensures
        views(v@) == route_forbidden(),
{
    let v = vec![
        "disablebodyinspection",
        "include_large_uploads",
        "crs-inband",
        "nomad job run",
        "fail_closed",
        "farmlinkstage",
        "crowdsec-bouncer",
    ];
    assert(views(v@) =~= route_forbidden());
    v
}

/// What `reject` answers for `parts`.
pub open spec fn reject_verdict(parts: Seq<Seq<char>>) -> Result<(), Seq<char>> {
    let blob = lower(join_space(parts));
    match first_hit(blob, route_forbidden()) {
        Some(t) => Err("forbidden operation: "@ + t),
        None => if contains(blob, "farmlink"@) {
            Err("farmlinkstage is out of scope"@)
        } else {
            Ok(())
        },
    }
}

/// Refuses route inputs naming forbidden settings or the out-of-scope `farmlink` hosts.
pub fn reject(parts: &[&str]) -> (r: Result<(), String>)
    ensures
        match reject_verdict(views(parts@)) {
            Ok(()) => r is Ok,
            Err(m) => r matches Err(e) && e@ == m,
        },
{
    let joined = join_with_space(parts);
    let blob = lower_chars(&joined);
    let toks = route_forbidden_list();
    match first_hit_exec(&blob, toks.as_slice()) {
        Some(t) => {
            let tc = chars_of(t);
            Err(crate::text::message("forbidden operation: ", &tc))
        },
        None => {
            let fl = chars_of("farmlink");
            if contains_chars(&blob, &fl) {
                Err(String::from_str("farmlinkstage is out of scope"))
            } else {
                Ok(())
            }
        },
    }
}

/// `reject` on a single part.
pub fn reject_one(part: &Vec<char>) -> (r: Result<(), String>)
    ensures
        match reject_verdict(seq![part@]) {
            Ok(()) => r is Ok,
            Err(m) => r matches Err(e) && e@ == m,
        },
{
    let s = string_of(part);
    let parts: [&str; 1] = [s.as_str()];
    assert(views(parts@) =~= seq![part@]);
    reject(&parts)
}

/// Some element of `list` has view `x`.
pub open spec fn listed(list: Seq<String>, x: Seq<char>) -> bool {
    exists|i: int| 0 <= i < list.len() && #[trigger] list[i]@ == x
}

/// Whether some element of `list` equals `x`.
pub fn listed_exec(list: &Vec<String>, x: &Vec<char>) -> (r: bool)
    ensures
        r == listed(list@, x@),
{
    let mut i: usize = 0;
    while i < list.len()
        invariant
            i <= list.len(),
            forall|m: int| 0 <= m < i ==> #[trigger] list@[m]@ != x@,
        decreases list.len() - i,
    {
        let c = chars_of(list[i].as_str());
        if eq_chars(&c, x) {
            return true;
        }
        i = i + 1;
    }
    false
}

/// What `validate_name` answers for a route or tunnel name.
pub open spec fn route_name_verdict(value: Seq<char>, reserved: Seq<String>) -> Result<Seq<char>, Seq<char>> {
    let name = lower(trim(value));
    if !regex_match(ROUTE_NAME_PATTERN@, name) {
        Err("invalid name"@)
    } else if listed(reserved, name) || has_prefix(name, "netbird-"@) || has_prefix(name, "keycloak-"@) {
        Err("reserved route name: "@ + name)
    } else {
        match reject_verdict(seq![name]) {
            Err(m) => Err(m),
            Ok(()) => Ok(name),
        }
    }
}

/// Accepts a route or tunnel name that is well formed and not reserved.
pub fn validate_name(value: &str, reserved: &Vec<String>) -> (r: Result<String, String>)
    ensures
        match route_name_verdict(value@, reserved@) {
            Ok(n) => r matches Ok(s) && s@ == n,
            Err(m) => r matches Err(e) && e@ == m,
        },
{
    let raw = chars_of(value);
    let t = trim_chars(&raw);
    let name = lower_chars(&t);
    let ns = string_of(&name);
    if !re_is_match(ROUTE_NAME_PATTERN, ns.as_str()) {
        return Err(String::from_str("invalid name"));
    }
    let p1 = chars_of("netbird-");
    let p2 = chars_of("keycloak-");
    if listed_exec(reserved, &name) || starts_with_chars(&name, &p1) || starts_with_chars(&name, &p2) {
        return Err(crate::text::message("reserved route name: ", &name));
    }
    reject_one(&name)?;
    Ok(ns)
}

/// What `validate_host` answers for a route host.
pub open spec fn route_host_verdict(value: Seq<char>, deny: Seq<String>) -> Result<Seq<char>, Seq<char>> {
    let host = strip_trailing(lower(trim(value)), '.');
    if !regex_match(ROUTE_HOST_PATTERN@, host) || contains(host, ".."@) {
        Err("invalid host"@)
    } else if listed(deny, host) || has_suffix(host, ".farmlinkstage"@) || contains(host, "farmlink"@) {
        Err("host out of scope: "@ + host)
    } else {
        match reject_verdict(seq![host]) {
            Err(m) => Err(m),
            Ok(()) => Ok(host),
        }
    }
}

/// Accepts a route host that is well formed and not denied; answers it trimmed, lowercased
/// and without trailing dots.
pub fn validate_host(value: &str, deny: &Vec<String>) -> (r: Result<String, String>)
    ensures
        match route_host_verdict(value@, deny@) {
            Ok(h) => r matches Ok(s) && s@ == h,
            Err(m) => r matches Err(e) && e@ == m,
        },
{
    let raw = chars_of(value);
    let t = trim_chars(&raw);
    let l = lower_chars(&t);
    let host = strip_trailing_exec(&l, '.');
    let hs = string_of(&host);
    let dd = chars_of("..");
    if !re_is_match(ROUTE_HOST_PATTERN, hs.as_str()) || contains_chars(&host, &dd) {
        return Err(String::from_str("invalid host"));
    }
    let s1 = chars_of(".farmlinkstage");
    let s2 = chars_of("farmlink");
    if listed_exec(deny, &host) || ends_with_chars(&host, &s1) || contains_chars(&host, &s2) {
        return Err(crate::text::message("host out of scope: ", &host));
    }
    reject_one(&host)?;
    Ok(hs)
}

/// What `validate_path` answers for a route path prefix (empty or `/` mean none).
pub open spec fn route_path_verdict(value: Seq<char>) -> Result<Seq<char>, Seq<char>> {
    let path = trim(value);
    if path.len() == 0 || path == "/"@ {
        Ok(Seq::empty())
    } else if !regex_match(ROUTE_PATH_PATTERN@, path) || contains(path, "//"@) || contains(path, ".."@) {
        Err("invalid path_prefix"@)
    } else {
        match reject_verdict(seq![path]) {
            Err(m) => Err(m),
            Ok(()) => Ok(path),
        }
    }
}

/// Accepts an optional route path prefix; `/` and blank mean none (`""`).
pub fn validate_path(value: &str) -> (r: Result<String, String>)
    ensures
        match route_path_verdict(value@) {
            Ok(p) => r matches Ok(s) && s@ == p,
            Err(m) => r matches Err(e) && e@ == m,
        },
{
    let raw = chars_of(value);
    let path = trim_chars(&raw);
    let slash = chars_of("/");
    if path.len() == 0 || eq_chars(&path, &slash) {
        return Ok(String::new());
    }
    let ps = string_of(&path);
    let d1 = chars_of("//");
    let d2 = chars_of("..");
    if !re_is_match(ROUTE_PATH_PATTERN, ps.as_str()) || contains_chars(&path, &d1) || contains_chars(&path, &d2) {
        return Err(String::from_str("invalid path_prefix"));
    }
    reject_one(&path)?;
    Ok(ps)
}

/// The parts of a service URL.
pub struct ParsedUrl {
    pub scheme: String,
    pub host: String,
    pub port: Option<u16>,
    pub path: String,
    pub user: Option<String>,
}

/// The mathematical parts of a URL: scheme, host, port, path, user.
pub struct UrlV {
    pub scheme: Seq<char>,
    pub host: Seq<char>,
    pub port: Option<int>,
    pub path: Seq<char>,
    pub user: Option<Seq<char>>,
}

impl View for ParsedUrl {
    type V = UrlV;

    open spec fn view(&self) -> UrlV {
        UrlV {
            scheme: self.scheme@,
            host: self.host@,
            port: match self.port {
                Some(p) => Some(p as int),
                None => None,
            },
            path: self.path@,
            user: match self.user {
                Some(u) => Some(u@),
                None => None,
            },
        }
    }
}

/// A port: the decimal text read as `u16`.
pub open spec fn port_spec(p: Seq<char>) -> Result<int, Seq<char>> {
    match parse_int_spec(p, false, 0, 65535) {
        Ok(v) => Ok(v),
        Err(e) => Err(int_error_text(e)),
    }
}

/// The host and port of an authority's `host[:port]` part.
pub open spec fn hostport_spec(hp: Seq<char>) -> Result<(Seq<char>, Option<int>), Seq<char>> {
    if hp.len() > 0 && hp[0] == '[' {
        let end = find_char(hp, ']');
        if end < 0 {
            Err("invalid IPv6 URL"@)
        } else {
            let host = hp.subrange(1, end);
            let after = hp.subrange(end + 1, hp.len() as int);
            if after.len() > 0 && after[0] == ':' {
                match port_spec(after.drop_first()) {
                    Ok(p) => Ok((host, Some(p))),
                    Err(m) => Err(m),
                }
            } else {
                Ok((host, None))
            }
        }
    } else {
        let c = rfind_char(hp, ':');
        if c < 0 {
            Ok((hp, None))
        } else if c == 0 {
            Err("invalid URL host"@)
        } else {
            match port_spec(hp.subrange(c + 1, hp.len() as int)) {
                Ok(p) => Ok((hp.subrange(0, c), Some(p))),
                Err(m) => Err(m),
            }
        }
    }
}

/// The authority and path of what follows `://`.
pub open spec fn authority_path(rest: Seq<char>) -> (Seq<char>, Seq<char>) {
    let slash = find_char(rest, '/');
    if slash < 0 {
        (rest, Seq::empty())
    } else {
        (rest.subrange(0, slash), rest.subrange(slash, rest.len() as int))
    }
}

/// The user and `host[:port]` of an authority.
pub open spec fn user_hostport(authority: Seq<char>) -> (Option<Seq<char>>, Seq<char>) {
    let at = rfind_char(authority, '@');
    if at < 0 {
        (None, authority)
    } else {
        (Some(authority.subrange(0, at)), authority.subrange(at + 1, authority.len() as int))
    }
}

/// How `parse_http_url` splits `raw`: `scheme://[user@]host[:port][/path]`.
#[verifier::opaque]
pub open spec fn url_spec(raw: Seq<char>) -> Result<UrlV, Seq<char>> {
    let sep = find_str(raw, "://"@);
    if sep < 0 {
        Err("invalid URL"@)
    } else {
        let scheme = raw.subrange(0, sep);
        let rest = raw.subrange(sep + 3, raw.len() as int);
        let (authority, path) = authority_path(rest);
        let (user, hp) = user_hostport(authority);
        match hostport_spec(hp) {
            Err(m) => Err(m),
            Ok((host, port)) => Ok(UrlV { scheme, host, port, path, user }),
        }
    }
}

/// Splits what follows `://` at its first `/`.
pub fn split_authority(rest: &Vec<char>) -> (r: (Vec<char>, Vec<char>))
    ensures
        (r.0@, r.1@) == authority_path(rest@),
{
    match find_char_exec(rest, '/') {
        Some(i) => (slice_chars(rest, 0, i), slice_chars(rest, i, rest.len())),
        None => {
            let a = slice_chars(rest, 0, rest.len());
            assert(a@ =~= rest@);
            (a, Vec::new())
        },
    }
}

/// Splits an authority at its last `@`.
pub fn split_user(authority: &Vec<char>) -> (r: (Option<String>, Vec<char>))
    ensures
        (match r.0 {
            Some(u) => Some(u@),
            None => None,
        }, r.1@) == user_hostport(authority@),
{
    match rfind_char_exec(authority, '@') {
        Some(i) => (Some(string_of(&slice_chars(authority, 0, i))), slice_chars(authority, i + 1, authority.len())),
        None => {
            let h = slice_chars(authority, 0, authority.len());
            assert(h@ =~= authority@);
            (None, h)
        },
    }
}

/// Reads a port number.
pub fn parse_port(p: &Vec<char>) -> (r: Result<u16, String>)
    ensures
        match port_spec(p@) {
            Ok(v) => r matches Ok(x) && x as int == v,
            Err(m) => r matches Err(e) && e@ == m,
        },
{
    match parse_int(p, false, 0, 65535) {
        Ok(v) => Ok(v as u16),
        Err(e) => Err(crate::number::int_error_message(e)),
    }
}

/// Splits `host[:port]` (or `[v6][:port]`).
pub fn parse_hostport(hp: &Vec<char>) -> (r: Result<(Vec<char>, Option<u16>), String>)
    ensures
        match hostport_spec(hp@) {
            Ok((h, p)) => r matches Ok((rh, rp)) && rh@ == h && match rp {
                Some(x) => p == Some(x as int),
                None => p is None,
            },
            Err(m) => r matches Err(e) && e@ == m,
        },
{
    if hp.len() > 0 && hp[0] == '[' {
        let end = match find_char_exec(hp, ']') {
            Some(e) => e,
            None => return Err(String::from_str("invalid IPv6 URL")),
        };
        assert(end >= 1);
        let host = slice_chars(hp, 1, end);
        let after = slice_chars(hp, end + 1, hp.len());
        if after.len() > 0 && after[0] == ':' {
            let pt = slice_chars(&after, 1, after.len());
            assert(pt@ =~= after@.drop_first());
            let p = parse_port(&pt)?;
            Ok((host, Some(p)))
        } else {
            Ok((host, None))
        }
    } else {
        match rfind_char_exec(hp, ':') {
            None => Ok((slice_chars(hp, 0, hp.len()), None)),
            Some(c) => {
                if c == 0 {
                    return Err(String::from_str("invalid URL host"));
                }
                let pt = slice_chars(hp, c + 1, hp.len());
                let p = parse_port(&pt)?;
                Ok((slice_chars(hp, 0, c), Some(p)))
            },
        }
    }
}

/// Splits a service URL into scheme, user, host, port and path.
#[verifier::rlimit(40)]
pub fn parse_http_url(raw: &str) -> (r: Result<ParsedUrl, String>)
    ensures
        match url_spec(raw@) {
            Ok(u) => r matches Ok(p) && p@ == u,
            Err(m) => r matches Err(e) && e@ == m,
        },
{
    reveal(url_spec);
    let s = chars_of(raw);
    let sepn = chars_of("://");
    let sep = match find_str_exec(&s, &sepn) {
        Some(i) => i,
        None => return Err(String::from_str("invalid URL")),
    };
    proof {
        reveal_strlit("://");
    }
    assert(sepn@.len() == 3);
    let scheme = slice_chars(&s, 0, sep);
    let rest = slice_chars(&s, sep + 3, s.len());
    let (authority, path) = split_authority(&rest);
    let (user, hp) = split_user(&authority);
    let ghost uv = match &user {
        Some(u) => Some(u@),
        None => None::<Seq<char>>,
    };
    assert(uv == user_hostport(authority@).0);
    assert(hp@ == user_hostport(authority@).1);
    match parse_hostport(&hp) {
        Err(e) => Err(e),
        Ok((host, port)) => {
            let r = ParsedUrl {
                scheme: string_of(&scheme),
                host: string_of(&host),
                port,
                path: string_of(&path),
                user,
            };
            assert(r@.user == uv);
            Ok(r)
        },
    }
}

/// Ports that must never be published (LAPI, AppSec, metrics).
pub open spec fn blocked_port(p: int) -> bool {
    p == 18080 || p == 7422 || p == 6060
}

/// A host a service may live on: `127.0.0.1`, `::1`, any loopback or NetBird address.
pub open spec fn service_host_allowed(host: Seq<char>) -> bool {
    host == "127.0.0.1"@ || host == "::1"@ || match ip_parse(host) {
        Some((_, lo, _)) => lo || net_has(NETBIRD_NET@, host),
        None => false,
    }
}

/// What `loopback_url` answers for a service URL.
pub open spec fn loopback_url_verdict(raw: Seq<char>) -> Result<Seq<char>, Seq<char>> {
    let url = trim(raw);
    match url_spec(url) {
        Err(m) => Err(m),
        Ok(u) => if u.scheme != "http"@ && u.scheme != "https"@ && u.scheme != "h2c"@ {
            Err("service URL must be http(s) or h2c on loopback"@)
        } else if !service_host_allowed(lower(u.host)) {
            Err("service must be 127.0.0.1, ::1, or NetBird 100.74.0.0/16"@)
        } else {
            match u.port {
                None => Err("service URL must include a port"@),
                Some(p) => if blocked_port(p) {
                    Err("refusing to publish LAPI/AppSec/metrics"@)
                } else if u.user is Some {
                    Err("service URL must not include credentials"@)
                } else {
                    match reject_verdict(seq![url]) {
                        Err(m) => Err(m),
                        Ok(()) => Ok(service_url_text(u.scheme, lower(u.host), p, u.path)),
                    }
                },
            }
        },
    }
}

/// Whether a service host is allowed.
fn service_host_allowed_exec(host: &Vec<char>) -> (r: bool)
    ensures
        r == service_host_allowed(host@),
{
    let a = chars_of("127.0.0.1");
    let b = chars_of("::1");
    if eq_chars(host, &a) || eq_chars(host, &b) {
        return true;
    }
    let hs = string_of(host);
    match parse_ip(hs.as_str()) {
        Some((_, lo, _)) => lo || net_contains(NETBIRD_NET, hs.as_str()),
        None => false,
    }
}

/// Accepts the backend URL of an operator route: http(s) or h2c, on loopback or NetBird,
/// with a port that is not LAPI/AppSec/metrics, without credentials; answers it rebuilt as
/// `scheme://host:port/path`.
pub fn loopback_url(raw: &str) -> (r: Result<String, String>)
    ensures
        match loopback_url_verdict(raw@) {
            Ok(v) => r matches Ok(s) && s@ == v,
            Err(m) => r matches Err(e) && e@ == m,
        },
{
    let rc = chars_of(raw);
    let url = trim_chars(&rc);
    let us = string_of(&url);
    let parsed = parse_http_url(us.as_str())?;
    let sc = chars_of(parsed.scheme.as_str());
    let s1 = chars_of("http");
    let s2 = chars_of("https");
    let s3 = chars_of("h2c");
    if !eq_chars(&sc, &s1) && !eq_chars(&sc, &s2) && !eq_chars(&sc, &s3) {
        return Err(String::from_str("service URL must be http(s) or h2c on loopback"));
    }
    let hc = chars_of(parsed.host.as_str());
    let host = lower_chars(&hc);
    if !service_host_allowed_exec(&host) {
        return Err(String::from_str("service must be 127.0.0.1, ::1, or NetBird 100.74.0.0/16"));
    }
    let port = match parsed.port {
        None => return Err(String::from_str("service URL must include a port")),
        Some(p) => p,
    };
    if port == 18080 || port == 7422 || port == 6060 {
        return Err(String::from_str("refusing to publish LAPI/AppSec/metrics"));
    }
    if parsed.user.is_some() {
        return Err(String::from_str("service URL must not include credentials"));
    }
    reject_one(&url)?;
    Ok(assemble_service_url(&sc, &host, port, parsed.path.as_str()))
}

/// `scheme://host:port/path`, with `::1` written `[::1]`.
pub open spec fn service_url_text(scheme: Seq<char>, host: Seq<char>, port: int, path: Seq<char>) -> Seq<char> {
    let host_out = if host == "::1"@ { "[::1]"@ } else { host };
    scheme + "://"@ + host_out + ":"@ + decimal(port as nat) + path
}

/// Writes a service URL.
fn assemble_service_url(sc: &Vec<char>, host: &Vec<char>, port: u16, path: &str) -> (r: String)
    ensures
        r@ == service_url_text(sc@, host@, port as int, path@),
{
    let v6 = chars_of("::1");
    let host_out = if eq_chars(host, &v6) {
        chars_of("[::1]")
    } else {
        slice_chars(host, 0, host.len())
    };
    assert(!(host@ == "::1"@) ==> host_out@ =~= host@);
    let sep = chars_of("://");
    let colon = chars_of(":");
    let pd = decimal_exec(port as u64);
    let pc = chars_of(path);
    let a = concat_chars(sc, &sep);
    let b = concat_chars(&a, &host_out);
    let c = concat_chars(&b, &colon);
    let d = concat_chars(&c, &pd);
    let e = concat_chars(&d, &pc);
    string_of(&e)
}

/// What `loopback_addr` answers for a TCP target `host:port`.
pub open spec fn loopback_addr_verdict(raw: Seq<char>) -> Result<Seq<char>, Seq<char>> {
    let value = trim(raw);
    if value.len() > 0 && value[0] == '[' {
        Err("use 127.0.0.1:port"@)
    } else if contains(value, "://"@) {
        Err("TCP target is host:port, not a URL"@)
    } else {
        let c = rfind_char(value, ':');
        if c <= 0 {
            Err("TCP target must be host:port"@)
        } else {
            let host = lower(value.subrange(0, c));
            match parse_int_spec(value.subrange(c + 1, value.len() as int), false, 0, 65535) {
                Err(_) => Err("invalid TCP port"@),
                Ok(port) => if port < 1 || blocked_port(port) {
                    Err("invalid TCP port"@)
                } else {
                    let host_out = if host == "127.0.0.1"@ || host == "localhost"@ {
                        Ok("127.0.0.1"@)
                    } else {
                        match ip_parse(host) {
                            Some((_, _, text)) => if net_has(NETBIRD_NET@, host) {
                                Ok(text)
                            } else {
                                Err("TCP target must be 127.0.0.1 or NetBird 100.74.0.0/16"@)
                            },
                            None => Err("TCP target must be 127.0.0.1 or NetBird 100.74.0.0/16"@),
                        }
                    };
                    match host_out {
                        Err(m) => Err(m),
                        Ok(h) => match reject_verdict(seq![h, decimal(port as nat)]) {
                            Err(m) => Err(m),
                            Ok(()) => Ok(h + ":"@ + decimal(port as nat)),
                        },
                    }
                },
            }
        }
    }
}

/// Accepts a TCP target `host:port` on `127.0.0.1` (or `localhost`) or NetBird, with a port
/// that is not LAPI/AppSec/metrics; answers it normalized.
#[verifier::rlimit(30)]
pub fn loopback_addr(raw: &str) -> (r: Result<String, String>)
    ensures
        match loopback_addr_verdict(raw@) {
            Ok(v) => r matches Ok(s) && s@ == v,
            Err(m) => r matches Err(e) && e@ == m,
        },
{
    let rc = chars_of(raw);
    let value = trim_chars(&rc);
    if value.len() > 0 && value[0] == '[' {
        return Err(String::from_str("use 127.0.0.1:port"));
    }
    let sep = chars_of("://");
    if contains_chars(&value, &sep) {
        return Err(String::from_str("TCP target is host:port, not a URL"));
    }
    let c = match rfind_char_exec(&value, ':') {
        Some(c) => c,
        None => return Err(String::from_str("TCP target must be host:port")),
    };
    if c == 0 {
        return Err(String::from_str("TCP target must be host:port"));
    }
    let hraw = slice_chars(&value, 0, c);
    let host = lower_chars(&hraw);
    let ptxt = slice_chars(&value, c + 1, value.len());
    let port = match parse_int(&ptxt, false, 0, 65535) {
        Ok(p) => p,
        Err(_) => return Err(String::from_str("invalid TCP port")),
    };
    if port < 1 || port == 18080 || port == 7422 || port == 6060 {
        return Err(String::from_str("invalid TCP port"));
    }
    let l1 = chars_of("127.0.0.1");
    let l2 = chars_of("localhost");
    let host_out = if eq_chars(&host, &l1) || eq_chars(&host, &l2) {
        l1
    } else {
        let hs = string_of(&host);
        match parse_ip(hs.as_str()) {
            Some((_, _, text)) => {
                if net_contains(NETBIRD_NET, hs.as_str()) {
                    chars_of(text.as_str())
                } else {
                    return Err(String::from_str("TCP target must be 127.0.0.1 or NetBird 100.74.0.0/16"));
                }
            },
            None => return Err(String::from_str("TCP target must be 127.0.0.1 or NetBird 100.74.0.0/16")),
        }
    };
    let pd = decimal_exec(port as u64);
    let hs2 = string_of(&host_out);
    let ps = string_of(&pd);
    let parts: [&str; 2] = [hs2.as_str(), ps.as_str()];
    assert(views(parts@) =~= seq![host_out@, pd@]);
    reject(&parts)?;
    let colon = chars_of(":");
    let a = concat_chars(&host_out, &colon);
    let b = concat_chars(&a, &pd);
    Ok(string_of(&b))
}

/// The middleware chains a route may use.
pub open spec fn known_chain(c: Seq<char>) -> bool {
    c == "domain-security-chain"@ || c == "expertsforensic-admin-only"@ || c == "none"@
}

/// What `chain` answers: the chain asked for (default `domain-security-chain`), except that
/// `/waf` paths and the console port `18990` take the admin-only chain and refuse the bouncer.
pub open spec fn chain_verdict(value: Seq<char>, path: Seq<char>, service_url: Seq<char>) -> Result<Seq<char>, Seq<char>> {
    let c = if trim(value).len() == 0 { "domain-security-chain"@ } else { trim(value) };
    if !known_chain(c) {
        Err("invalid chain"@)
    } else {
        let port = match url_spec(service_url) {
            Ok(u) => u.port,
            Err(_) => None,
        };
        if contains(lower(path), "/waf"@) || port == Some(18990int) {
            if c == "domain-security-chain"@ {
                Err("/waf and :18990 must stay off the CrowdSec bouncer"@)
            } else {
                Ok("expertsforensic-admin-only"@)
            }
        } else {
            Ok(c)
        }
    }
}

/// Picks the middleware chain of a route.
pub fn chain(value: &str, path: &str, service_url: &str) -> (r: Result<String, String>)
    ensures
        match chain_verdict(value@, path@, service_url@) {
            Ok(v) => r matches Ok(s) && s@ == v,
            Err(m) => r matches Err(e) && e@ == m,
        },
{
    let vc = chars_of(value);
    let t = trim_chars(&vc);
    let c = if t.len() == 0 { chars_of("domain-security-chain") } else { t };
    let k1 = chars_of("domain-security-chain");
    let k2 = chars_of("expertsforensic-admin-only");
    let k3 = chars_of("none");
    if !eq_chars(&c, &k1) && !eq_chars(&c, &k2) && !eq_chars(&c, &k3) {
        return Err(String::from_str("invalid chain"));
    }
    let pc = chars_of(path);
    let low = lower_chars(&pc);
    let port = match parse_http_url(service_url) {
        Ok(u) => u.port,
        Err(_) => None,
    };
    let waf = chars_of("/waf");
    let is_console = match port {
        Some(p) => p == 18990,
        None => false,
    };
    if contains_chars(&low, &waf) || is_console {
        if eq_chars(&c, &k1) {
            return Err(String::from_str("/waf and :18990 must stay off the CrowdSec bouncer"));
        }
        return Ok(String::from_str("expertsforensic-admin-only"));
    }
    Ok(string_of(&c))
}

/// The console itself (`/waf` paths, port `18990`) is never put behind the CrowdSec bouncer
/// chain: whatever chain is asked for, the one chosen for such a route is not
/// `domain-security-chain`.
pub proof fn law_console_off_bouncer(value: Seq<char>, path: Seq<char>, service_url: Seq<char>)
    requires
        contains(lower(path), "/waf"@) || (url_spec(service_url) matches Ok(u) && u.port == Some(18990int)),
    ensures
        chain_verdict(value, path, service_url) matches Ok(c) ==> c == "expertsforensic-admin-only"@,
{
}

/// What `priority` answers for a JSON value: an integer (or integer text) in `1..=1000`.
pub open spec fn priority_verdict(value: JsonV) -> Result<int, Seq<char>> {
    let n = match value {
        JsonV::Int(i) => Some(i),
        JsonV::Str(s) => match parse_int_spec(s, true, i64::MIN as int, i64::MAX as int) {
            Ok(v) => Some(v),
            Err(_) => None,
        },
        _ => None,
    };
    match n {
        None => Err("invalid priority"@),
        Some(v) => if v < 1 || v > 1000 {
            Err("priority must be 1-1000"@)
        } else {
            Ok(v)
        },
    }
}

/// Reads a route priority.
pub fn priority(value: &Json) -> (r: Result<i64, String>)
    ensures
        match priority_verdict(value@) {
            Ok(v) => r matches Ok(x) && x as int == v,
            Err(m) => r matches Err(e) && e@ == m,
        },
{
    let n: Option<i64> = match value {
        Json::Int(i) => Some(*i),
        Json::Str(s) => {
            let c = chars_of(s.as_str());
            match parse_int(&c, true, i64::MIN, i64::MAX) {
                Ok(v) => Some(v),
                Err(_) => None,
            }
        },
        _ => None,
    };
    match n {
        None => Err(String::from_str("invalid priority")),
        Some(v) => if v < 1 || v > 1000 {
            Err(String::from_str("priority must be 1-1000"))
        } else {
            Ok(v)
        },
    }
}

/// The Traefik rule of an HTTP route.
pub open spec fn http_rule_spec(host: Seq<char>, path: Seq<char>) -> Seq<char> {
    "Host(`"@ + host + "`)"@ + if path.len() == 0 { Seq::empty() } else { " && PathPrefix(`"@ + path + "`)"@ }
}

/// Builds `Host(`host`)`, plus ` && PathPrefix(`path`)` when a path is set.
pub fn http_rule(host: &str, path: &str) -> (r: String)
    ensures
        r@ == http_rule_spec(host@, path@),
{
    let a = chars_of("Host(`");
    let h = chars_of(host);
    let b = chars_of("`)");
    let p = chars_of(path);
    let x = concat_chars(&concat_chars(&a, &h), &b);
    if p.len() == 0 {
        assert(x@ + Seq::<char>::empty() =~= x@);
        return string_of(&x);
    }
    let c = chars_of(" && PathPrefix(`");
    let y = concat_chars(&concat_chars(&c, &p), &b);
    assert(x@ + y@ =~= http_rule_spec(host@, path@));
    string_of(&concat_chars(&x, &y))
}

/// The Traefik middlewares of a chain.
pub open spec fn middlewares_spec(chain: Seq<char>) -> Seq<Seq<char>> {
    if chain == "none"@ {
        Seq::empty()
    } else if chain == "expertsforensic-admin-only"@ {
        seq!["expertsforensic-admin-only@file"@, "strip-backend-csp@file"@]
    } else {
        seq![chain + "@file"@, "strip-backend-csp@file"@]
    }
}

/// Lists the middlewares of a chain.
pub fn middlewares(chain: &str) -> (r: Vec<String>)
    ensures
        r@.len() == middlewares_spec(chain@).len(),
        forall|i: int| 0 <= i < r@.len() ==> #[trigger] r@[i]@ == middlewares_spec(chain@)[i],
{
    let c = chars_of(chain);
    let none = chars_of("none");
    let admin = chars_of("expertsforensic-admin-only");
    if eq_chars(&c, &none) {
        return Vec::new();
    }
    let mut v: Vec<String> = Vec::new();
    if eq_chars(&c, &admin) {
        v.push(String::from_str("expertsforensic-admin-only@file"));
    } else {
        let f = chars_of("@file");
        v.push(string_of(&concat_chars(&c, &f)));
    }
    v.push(String::from_str("strip-backend-csp@file"));
    v
}

/// `find_char` is `-1` or a position inside `s`.
pub proof fn lemma_find_char_bounds(s: Seq<char>, c: char)
    ensures
        -1 <= find_char(s, c) < s.len(),
        find_char(s, c) >= 0 ==> s[find_char(s, c)] == c,
{
    if crate::text::has_char(s, c) {
        let k = choose|k: int| 0 <= k < s.len() && s[k] == c;
        lemma_first_exists(s, c, k);
        let i = find_char(s, c);
        assert(0 <= i < s.len() && s[i] == c);
    }
}

/// A character that occurs has a first occurrence.
pub proof fn lemma_first_exists(s: Seq<char>, c: char, k: int)
    requires
        0 <= k < s.len(),
        s[k] == c,
    ensures
        exists|i: int| 0 <= i < s.len() && s[i] == c && forall|j: int| 0 <= j < i ==> s[j] != c,
    decreases k,
{
    if exists|j: int| 0 <= j < k && s[j] == c {
        let j = choose|j: int| 0 <= j < k && s[j] == c;
        lemma_first_exists(s, c, j);
    } else {
        assert(forall|j: int| 0 <= j < k ==> s[j] != c);
    }
}

/// The comma-separated names of `raw`, trimmed (and lowercased when asked), blanks dropped.
#[verifier::opaque]
pub open spec fn split_names(raw: Seq<char>, lowercase: bool) -> Seq<Seq<char>>
    decreases raw.len(),
{
    let c = find_char(raw, ',');
    proof {
        lemma_find_char_bounds(raw, ',');
    }
    let piece = if c < 0 { raw } else { raw.subrange(0, c) };
    let t = if lowercase { lower(trim(piece)) } else { trim(piece) };
    let head: Seq<Seq<char>> = if t.len() == 0 { Seq::empty() } else { seq![t] };
    if c < 0 {
        head
    } else {
        head + split_names(raw.subrange(c + 1, raw.len() as int), lowercase)
    }
}

/// Splits a comma-separated setting into trimmed (optionally lowercased) non-blank names.
#[verifier::rlimit(40)]
pub fn name_list(raw: &str, lowercase: bool) -> (r: Vec<String>)
    ensures
        r@.len() == split_names(raw@, lowercase).len(),
        forall|i: int| 0 <= i < r@.len() ==> #[trigger] r@[i]@ == split_names(raw@, lowercase)[i],
{
    let all = chars_of(raw);
    let mut rest = all;
    let mut out: Vec<String> = Vec::new();
    let ghost mut acc: Seq<Seq<char>> = Seq::empty();
    loop
        invariant
            out@.len() == acc.len(),
            forall|i: int| 0 <= i < out@.len() ==> #[trigger] out@[i]@ == acc[i],
            acc + split_names(rest@, lowercase) == split_names(raw@, lowercase),
        decreases rest@.len(),
    {
        let c = find_char_exec(&rest, ',');
        let piece = match c {
            Some(i) => slice_chars(&rest, 0, i),
            None => slice_chars(&rest, 0, rest.len()),
        };
        assert(c is None ==> piece@ =~= rest@);
        let tp = trim_chars(&piece);
        let t = if lowercase { lower_chars(&tp) } else { tp };
        let ghost head: Seq<Seq<char>> = if t@.len() == 0 { Seq::empty() } else { seq![t@] };
        if t.len() != 0 {
            out.push(string_of(&t));
        }
        proof {
            acc = acc + head;
        }
        match c {
            None => {
                assert(split_names(rest@, lowercase) == head) by {
                    reveal(split_names);
                }
                assert(acc =~= split_names(raw@, lowercase));
                return out;
            },
            Some(i) => {
                let nr = slice_chars(&rest, i + 1, rest.len());
                assert(split_names(rest@, lowercase) == head + split_names(nr@, lowercase)) by {
                    reveal(split_names);
                }
                assert(acc + split_names(nr@, lowercase) =~= split_names(raw@, lowercase));
                rest = nr;
            },
        }
    }
}

} // verus!

verus! {

/// Deployment settings of the route store: reserved route names, denied hosts and the
/// default Teleport node of local tunnels.
pub struct RouteEnv {
    pub reserved: Vec<String>,
    pub deny: Vec<String>,
    pub tsh_node: String,
}

/// The Teleport node of local tunnels when no setting names it.
pub const DEFAULT_TSH_NODE: &'static str = "root@localhost";

impl RouteEnv {
    /// The route store's settings from their raw values (absent ones take the defaults):
    /// reserved names trimmed, denied hosts trimmed and lowercased, blanks dropped.
    pub fn from_settings(reserved: Option<&str>, deny: Option<&str>, node: Option<&str>) -> (r: RouteEnv)
        ensures
            r.reserved@.len() == split_names(match reserved { Some(s) => s@, None => DEFAULT_RESERVED@ }, false).len(),
            forall|i: int| 0 <= i < r.reserved@.len() ==> #[trigger] r.reserved@[i]@ == split_names(
                match reserved { Some(s) => s@, None => DEFAULT_RESERVED@ },
                false,
            )[i],
            r.deny@.len() == split_names(match deny { Some(s) => s@, None => DEFAULT_DENY_HOSTS@ }, true).len(),
            forall|i: int| 0 <= i < r.deny@.len() ==> #[trigger] r.deny@[i]@ == split_names(
                match deny { Some(s) => s@, None => DEFAULT_DENY_HOSTS@ },
                true,
            )[i],
            r.tsh_node@ == match node { Some(s) => s@, None => DEFAULT_TSH_NODE@ },
    {
        let rs = match reserved {
            Some(s) => s,
            None => DEFAULT_RESERVED,
        };
        let ds = match deny {
            Some(s) => s,
            None => DEFAULT_DENY_HOSTS,
        };
        let ns = match node {
            Some(s) => s,
            None => DEFAULT_TSH_NODE,
        };
        RouteEnv { reserved: name_list(rs, false), deny: name_list(ds, true), tsh_node: String::from_str(ns) }
    }
}

/// The entries of the item being edited (none for a new one).
pub open spec fn base_fields(existing: Option<JsonV>) -> Seq<(Seq<char>, JsonV)> {
    match existing {
        Some(JsonV::Object(f)) => f,
        _ => Seq::empty(),
    }
}

/// Field `k` of the request, or else of the item being edited.
pub open spec fn pick_base(payload: JsonV, base: JsonV, k: Seq<char>) -> Option<JsonV> {
    match jget(payload, k) {
        Some(v) => Some(v),
        None => jget(base, k),
    }
}

/// `pick_base` read as text, `dflt` where absent or not a string.
pub open spec fn pick_base_str(payload: JsonV, base: JsonV, k: Seq<char>, dflt: Seq<char>) -> Seq<char> {
    match jstr(pick_base(payload, base, k)) {
        Some(s) => s,
        None => dflt,
    }
}

/// A request field counts as not given when absent, `null` or the empty string.
pub open spec fn blank_or_absent(v: Option<JsonV>) -> bool {
    match v {
        None => true,
        Some(JsonV::Null) => true,
        Some(JsonV::Str(s)) => s.len() == 0,
        _ => false,
    }
}

/// A flag of the request where given, else of the item being edited, else `true`.
pub open spec fn flag_or_true(payload: JsonV, base: JsonV, k: Seq<char>) -> bool {
    if jget(payload, k) is Some {
        bool_or(payload, k, true)
    } else {
        bool_or(base, k, true)
    }
}

/// Entries with `k` set to the string `s`.
pub open spec fn set_str(f: Seq<(Seq<char>, JsonV)>, k: Seq<char>, s: Seq<char>) -> Seq<(Seq<char>, JsonV)> {
    set_entry(f, k, JsonV::Str(s))
}

/// Entries with `created` set to `now` unless already there.
pub open spec fn stamp_created(f: Seq<(Seq<char>, JsonV)>, now: Seq<char>) -> Seq<(Seq<char>, JsonV)> {
    if vget(f, "created"@) is Some {
        f
    } else {
        set_str(f, "created"@, now)
    }
}

/// The validated values of an HTTP route.
pub struct RouteValues {
    pub id: Seq<char>,
    pub name: Seq<char>,
    pub host: Seq<char>,
    pub path: Seq<char>,
    pub url: Seq<char>,
    pub chain: Seq<char>,
    pub tls: bool,
    pub priority: int,
    pub enabled: bool,
}

/// The entries of a route: those of the edited route with each validated field set, in
/// this order, then `updated`, and `created` unless already there.
pub open spec fn route_fields(f0: Seq<(Seq<char>, JsonV)>, v: RouteValues, now: Seq<char>) -> Seq<(Seq<char>, JsonV)> {
    let f1 = set_str(f0, "id"@, v.id);
    let f2 = set_str(f1, "kind"@, "http"@);
    let f3 = set_str(f2, "name"@, v.name);
    let f4 = set_str(f3, "host"@, v.host);
    let f5 = set_str(f4, "path_prefix"@, v.path);
    let f6 = set_str(f5, "service_url"@, v.url);
    let f7 = set_str(f6, "chain"@, v.chain);
    let f8 = set_entry(f7, "tls"@, JsonV::Bool(v.tls));
    let f9 = set_entry(f8, "priority"@, JsonV::Int(v.priority));
    let f10 = set_entry(f9, "enabled"@, JsonV::Bool(v.enabled));
    let f11 = set_str(f10, "updated"@, now);
    stamp_created(f11, now)
}

/// Sets the validated fields of a route.
fn fill_route(
    fields: &mut Vec<(String, Json)>,
    id: String,
    name: String,
    host: String,
    path: String,
    url: String,
    chain: String,
    tls: bool,
    priority: i64,
    enabled: bool,
    now: &str,
)
    ensures
        fview(final(fields)@) == route_fields(
            fview(old(fields)@),
            RouteValues {
                id: id@,
                name: name@,
                host: host@,
                path: path@,
                url: url@,
                chain: chain@,
                tls,
                priority: priority as int,
                enabled,
            },
            now@,
        ),
{
    obj_set(fields, "id", Json::Str(id));
    obj_set(fields, "kind", Json::Str(String::from_str("http")));
    obj_set(fields, "name", Json::Str(name));
    obj_set(fields, "host", Json::Str(host));
    obj_set(fields, "path_prefix", Json::Str(path));
    obj_set(fields, "service_url", Json::Str(url));
    obj_set(fields, "chain", Json::Str(chain));
    obj_set(fields, "tls", Json::Bool(tls));
    obj_set(fields, "priority", Json::Int(priority));
    obj_set(fields, "enabled", Json::Bool(enabled));
    obj_set(fields, "updated", Json::Str(String::from_str(now)));
    stamp_created_exec(fields, now);
}

/// What `normalize_route` answers: the stored form of an HTTP route built from a request and
/// the route being edited (`fresh_id` names a new one, `now` stamps it), or the first error.
#[verifier::opaque]
pub open spec fn route_verdict(
    payload: JsonV,
    existing: Option<JsonV>,
    reserved: Seq<String>,
    deny: Seq<String>,
    fresh_id: Seq<char>,
    now: Seq<char>,
) -> Result<Seq<(Seq<char>, JsonV)>, Seq<char>> {
    let f0 = base_fields(existing);
    let base = JsonV::Object(f0);
    match route_name_verdict(pick_base_str(payload, base, "name"@, Seq::empty()), reserved) {
        Err(m) => Err(m),
        Ok(name) => match route_host_verdict(pick_base_str(payload, base, "host"@, Seq::empty()), deny) {
            Err(m) => Err(m),
            Ok(host) => {
                let pv = if jget(payload, "path_prefix"@) is Some {
                    route_path_verdict(str_or_empty(payload, "path_prefix"@))
                } else {
                    route_path_verdict(str_or_empty(base, "path_prefix"@))
                };
                match pv {
                    Err(m) => Err(m),
                    Ok(path) => match loopback_url_verdict(pick_base_str(payload, base, "service_url"@, Seq::empty())) {
                        Err(m) => Err(m),
                        Ok(url) => {
                            let cv = if jget(payload, "chain"@) is Some {
                                str_or(payload, "chain"@, "domain-security-chain"@)
                            } else {
                                str_or(base, "chain"@, "domain-security-chain"@)
                            };
                            match chain_verdict(cv, path, url) {
                                Err(m) => Err(m),
                                Ok(chain) => {
                                    let pri = if blank_or_absent(jget(payload, "priority"@)) {
                                        match jget(base, "priority"@) {
                                            Some(v) => v,
                                            None => JsonV::Int(90),
                                        }
                                    } else {
                                        jget(payload, "priority"@)->Some_0
                                    };
                                    match priority_verdict(pri) {
                                        Err(m) => Err(m),
                                        Ok(p) => Ok(
                                            route_fields(
                                                f0,
                                                RouteValues {
                                                    id: str_or(base, "id"@, fresh_id),
                                                    name,
                                                    host,
                                                    path,
                                                    url,
                                                    chain,
                                                    tls: flag_or_true(payload, base, "tls"@),
                                                    priority: p,
                                                    enabled: flag_or_true(payload, base, "enabled"@),
                                                },
                                                now,
                                            ),
                                        ),
                                    }
                                },
                            }
                        },
                    },
                }
            },
        },
    }
}

/// The entries of the item being edited, copied (none for a new one).
fn base_fields_exec(existing: Option<&Json>) -> (r: Vec<(String, Json)>)
    ensures
        fview(r@) == base_fields(match existing { Some(e) => Some(e@), None => None }),
{
    match existing {
        Some(e) => {
            let c = clone_json(e);
            match c {
                Json::Object(fields) => {
                    proof {
                        lemma_object_fview(Json::Object(fields));
                    }
                    fields
                },
                _ => Vec::new(),
            }
        },
        None => {
            let v: Vec<(String, Json)> = Vec::new();
            assert(fview(v@) =~= Seq::<(Seq<char>, JsonV)>::empty());
            v
        },
    }
}

/// Field `key` of the request, or else of the item being edited.
fn pick_base_exec<'a>(payload: &'a Json, base: &'a Json, key: &str) -> (r: Option<&'a Json>)
    ensures
        match r {
            Some(v) => pick_base(payload@, base@, key@) == Some(v@),
            None => pick_base(payload@, base@, key@) is None,
        },
{
    match get(payload, key) {
        Some(v) => Some(v),
        None => get(base, key),
    }
}

/// `pick_base` read as text.
fn pick_base_text(payload: &Json, base: &Json, key: &str, dflt: &str) -> (r: String)
    ensures
        r@ == pick_base_str(payload@, base@, key@, dflt@),
{
    match pick_base_exec(payload, base, key) {
        Some(Json::Str(s)) => s.clone(),
        _ => String::from_str(dflt),
    }
}

/// `pick_base` read as text, empty where absent or not a string.
fn pick_base_plain(payload: &Json, base: &Json, key: &str) -> (r: String)
    ensures
        r@ == pick_base_str(payload@, base@, key@, Seq::empty()),
{
    match pick_base_exec(payload, base, key) {
        Some(Json::Str(s)) => s.clone(),
        _ => String::new(),
    }
}

/// A flag of the request where given, else of the item being edited, else `true`.
fn flag_or_true_exec(payload: &Json, base: &Json, key: &str) -> (r: bool)
    ensures
        r == flag_or_true(payload@, base@, key@),
{
    match get(payload, key) {
        Some(_) => get_bool_or(payload, key, true),
        None => get_bool_or(base, key, true),
    }
}

/// Whether a request field counts as not given.
fn blank_or_absent_exec(v: Option<&Json>) -> (r: bool)
    ensures
        r == blank_or_absent(match v { Some(j) => Some(j@), None => None }),
{
    match v {
        None => true,
        Some(Json::Null) => true,
        Some(Json::Str(s)) => {
            let c = chars_of(s.as_str());
            c.len() == 0
        },
        _ => false,
    }
}

/// Sets `created` to `now` unless already there.
fn stamp_created_exec(fields: &mut Vec<(String, Json)>, now: &str)
    ensures
        fview(final(fields)@) == stamp_created(fview(old(fields)@), now@),
{
    let probe = Json::Object(clone_fields(fields));
    proof {
        lemma_object_fview(probe);
    }
    if get(&probe, "created").is_none() {
        obj_set(fields, "created", Json::Str(String::from_str(now)));
    }
}

/// Builds the stored form of an HTTP route from a request and the route being edited, with
/// `fresh_id` naming a new route and `now` as the time stamp.
#[verifier::rlimit(60)]
pub fn normalize_route_at(
    payload: &Json,
    existing: Option<&Json>,
    env: &RouteEnv,
    fresh_id: &str,
    now: &str,
) -> (r: Result<Json, String>)
    ensures
        match route_verdict(payload@, match existing { Some(e) => Some(e@), None => None }, env.reserved@, env.deny@, fresh_id@, now@) {
            Ok(f) => r matches Ok(j) && j@ == JsonV::Object(f),
            Err(m) => r matches Err(e) && e@ == m,
        },
{
    reveal(route_verdict);
    let mut fields = base_fields_exec(existing);
    let base = Json::Object(clone_fields(&fields));
    proof {
        lemma_object_fview(base);
    }
    let name_raw = pick_base_plain(payload, &base, "name");
    let name = match validate_name(name_raw.as_str(), &env.reserved) {
        Ok(v) => v,
        Err(e) => return Err(e),
    };
    let host_raw = pick_base_plain(payload, &base, "host");
    let host = match validate_host(host_raw.as_str(), &env.deny) {
        Ok(v) => v,
        Err(e) => return Err(e),
    };
    let path_raw = match get(payload, "path_prefix") {
        Some(_) => get_str_or_empty(payload, "path_prefix"),
        None => get_str_or_empty(&base, "path_prefix"),
    };
    let path = match validate_path(path_raw.as_str()) {
        Ok(v) => v,
        Err(e) => return Err(e),
    };
    let url_raw = pick_base_plain(payload, &base, "service_url");
    let url = match loopback_url(url_raw.as_str()) {
        Ok(v) => v,
        Err(e) => return Err(e),
    };
    let cv = match get(payload, "chain") {
        Some(_) => get_str_or(payload, "chain", "domain-security-chain"),
        None => get_str_or(&base, "chain", "domain-security-chain"),
    };
    let cvs = string_of(&cv);
    let ch = match chain(cvs.as_str(), path.as_str(), url.as_str()) {
        Ok(v) => v,
        Err(e) => return Err(e),
    };
    let pri: Json = if blank_or_absent_exec(get(payload, "priority")) {
        match get(&base, "priority") {
            Some(v) => clone_json(v),
            None => Json::Int(90),
        }
    } else {
        match get(payload, "priority") {
            Some(v) => clone_json(v),
            None => Json::Int(90),
        }
    };
    let p = match priority(&pri) {
        Ok(v) => v,
        Err(e) => return Err(e),
    };
    let id = get_str_or(&base, "id", fresh_id);
    let tls = flag_or_true_exec(payload, &base, "tls");
    let enabled = flag_or_true_exec(payload, &base, "enabled");
    fill_route(&mut fields, string_of(&id), name, host, path, url, ch, tls, p, enabled, now);
    let r = Json::Object(fields);
    proof {
        lemma_object_fview(r);
    }
    Ok(r)
}

} // verus!

verus! {

/// The Teleport port-forward command of a local tunnel.
pub open spec fn tsh_text(local_port: int, remote: Seq<char>, node: Seq<char>) -> Seq<char> {
    "tsh ssh -N -L "@ + int_text(local_port) + ":"@ + remote + " "@ + node
}

/// What `tsh_cmd` answers for a stored tunnel: its command if it is a local tunnel, else "".
pub open spec fn tsh_cmd_spec(item: JsonV) -> Seq<char> {
    if jstr(jget(item, "kind"@)) != Some("local"@) {
        Seq::empty()
    } else {
        tsh_text(
            match ji64(jget(item, "local_port"@)) {
                Some(p) => p,
                None => 0,
            },
            str_or_empty(item, "remote"@),
            str_or_empty(item, "node"@),
        )
    }
}

/// The Teleport command an operator runs to open a local tunnel ("" for other tunnels).
pub fn tsh_cmd(item: &Json) -> (r: String)
    ensures
        r@ == tsh_cmd_spec(item@),
{
    let local = chars_of("local");
    match get_str(item, "kind") {
        Some(k) => {
            let kc = chars_of(k.as_str());
            if !eq_chars(&kc, &local) {
                return String::new();
            }
        },
        None => return String::new(),
    }
    let port: i64 = match get_i64(item, "local_port") {
        Some(p) => p,
        None => 0,
    };
    let remote = get_str_or_empty(item, "remote");
    let node = get_str_or_empty(item, "node");
    let mut t: Vec<char> = Vec::new();
    append_str(&mut t, "tsh ssh -N -L ");
    let pt = int_text_exec(port);
    append_chars(&mut t, &pt);
    append_str(&mut t, ":");
    append_str(&mut t, remote.as_str());
    append_str(&mut t, " ");
    append_str(&mut t, node.as_str());
    string_of(&t)
}

/// The local port asked for, as an integer or integer text.
pub open spec fn port_value(v: JsonV) -> Option<int> {
    match v {
        JsonV::Int(i) => Some(i),
        JsonV::Str(s) => match parse_int_spec(s, true, i64::MIN as int, i64::MAX as int) {
            Ok(x) => Some(x),
            Err(_) => None,
        },
        _ => None,
    }
}

/// The common entries of a tunnel: those of the edited tunnel with id, kind, name, enabled
/// and `updated` set, in this order.
pub open spec fn tunnel_head(
    f0: Seq<(Seq<char>, JsonV)>,
    id: Seq<char>,
    kind: Seq<char>,
    name: Seq<char>,
    enabled: bool,
    now: Seq<char>,
) -> Seq<(Seq<char>, JsonV)> {
    let f1 = set_str(f0, "id"@, id);
    let f2 = set_str(f1, "kind"@, kind);
    let f3 = set_str(f2, "name"@, name);
    let f4 = set_entry(f3, "enabled"@, JsonV::Bool(enabled));
    set_str(f4, "updated"@, now)
}

/// The rest of a TCP tunnel's entries; the local-tunnel fields are cleared.
pub open spec fn tcp_tail(
    f5: Seq<(Seq<char>, JsonV)>,
    sni: Seq<char>,
    target: Seq<char>,
    passthrough: bool,
    now: Seq<char>,
) -> Seq<(Seq<char>, JsonV)> {
    let f6 = set_str(f5, "sni"@, sni);
    let f7 = set_str(f6, "target"@, target);
    let f8 = set_entry(f7, "passthrough"@, JsonV::Bool(passthrough));
    let f9 = set_entry(f8, "local_port"@, JsonV::Int(0));
    let f10 = set_str(f9, "remote"@, Seq::empty());
    let f11 = set_str(f10, "node"@, Seq::empty());
    let f12 = set_str(f11, "command"@, Seq::empty());
    stamp_created(f12, now)
}

/// The rest of a local tunnel's entries; the TCP fields are cleared and the Teleport
/// command is recorded.
pub open spec fn local_tail(
    f5: Seq<(Seq<char>, JsonV)>,
    lp: int,
    remote: Seq<char>,
    node: Seq<char>,
    now: Seq<char>,
) -> Seq<(Seq<char>, JsonV)> {
    let f6 = set_entry(f5, "local_port"@, JsonV::Int(lp));
    let f7 = set_str(f6, "remote"@, remote);
    let f8 = set_str(f7, "node"@, node);
    let f9 = set_str(f8, "sni"@, Seq::empty());
    let f10 = set_str(f9, "target"@, Seq::empty());
    let f11 = set_entry(f10, "passthrough"@, JsonV::Bool(false));
    let f12 = set_str(f11, "command"@, tsh_text(lp, remote, node));
    stamp_created(f12, now)
}

/// Sets the common fields of a tunnel.
fn fill_tunnel_head(fields: &mut Vec<(String, Json)>, id: String, kind: String, name: String, enabled: bool, now: &str)
    ensures
        fview(final(fields)@) == tunnel_head(fview(old(fields)@), id@, kind@, name@, enabled, now@),
{
    obj_set(fields, "id", Json::Str(id));
    obj_set(fields, "kind", Json::Str(kind));
    obj_set(fields, "name", Json::Str(name));
    obj_set(fields, "enabled", Json::Bool(enabled));
    obj_set(fields, "updated", Json::Str(String::from_str(now)));
}

/// Sets the rest of a TCP tunnel's fields.
fn fill_tcp_tail(fields: &mut Vec<(String, Json)>, sni: String, target: String, passthrough: bool, now: &str)
    ensures
        fview(final(fields)@) == tcp_tail(fview(old(fields)@), sni@, target@, passthrough, now@),
{
    obj_set(fields, "sni", Json::Str(sni));
    obj_set(fields, "target", Json::Str(target));
    obj_set(fields, "passthrough", Json::Bool(passthrough));
    obj_set(fields, "local_port", Json::Int(0));
    obj_set(fields, "remote", Json::Str(String::new()));
    obj_set(fields, "node", Json::Str(String::new()));
    obj_set(fields, "command", Json::Str(String::new()));
    stamp_created_exec(fields, now);
}

/// Sets the rest of a local tunnel's fields.
#[verifier::rlimit(40)]
fn fill_local_tail(fields: &mut Vec<(String, Json)>, lp: i64, remote: String, node: String, now: &str)
    ensures
        fview(final(fields)@) == local_tail(fview(old(fields)@), lp as int, remote@, node@, now@),
{
    let cmd = tsh_text_exec(lp, remote.as_str(), node.as_str());
    obj_set(fields, "local_port", Json::Int(lp));
    obj_set(fields, "remote", Json::Str(remote));
    obj_set(fields, "node", Json::Str(node));
    obj_set(fields, "sni", Json::Str(String::new()));
    obj_set(fields, "target", Json::Str(String::new()));
    obj_set(fields, "passthrough", Json::Bool(false));
    obj_set(fields, "command", Json::Str(cmd));
    stamp_created_exec(fields, now);
}

/// The Teleport port-forward command of a local tunnel.
fn tsh_text_exec(lp: i64, remote: &str, node: &str) -> (r: String)
    ensures
        r@ == tsh_text(lp as int, remote@, node@),
{
    let mut cmd: Vec<char> = Vec::new();
    append_str(&mut cmd, "tsh ssh -N -L ");
    let pt = int_text_exec(lp);
    append_chars(&mut cmd, &pt);
    append_str(&mut cmd, ":");
    append_str(&mut cmd, remote);
    append_str(&mut cmd, " ");
    append_str(&mut cmd, node);
    string_of(&cmd)
}

/// What `normalize_tunnel` answers: the stored form of a TCP or local tunnel built from a
/// request and the tunnel being edited (`fresh_id` names a new one, `now` stamps it), or the
/// first error.
#[verifier::opaque]
pub open spec fn tunnel_verdict(
    payload: JsonV,
    existing: Option<JsonV>,
    reserved: Seq<String>,
    deny: Seq<String>,
    tsh_node: Seq<char>,
    fresh_id: Seq<char>,
    now: Seq<char>,
) -> Result<Seq<(Seq<char>, JsonV)>, Seq<char>> {
    let f0 = base_fields(existing);
    let base = JsonV::Object(f0);
    match route_name_verdict(pick_base_str(payload, base, "name"@, Seq::empty()), reserved) {
        Err(m) => Err(m),
        Ok(name) => {
            let kind = lower(trim(pick_base_str(payload, base, "kind"@, "local"@)));
            if kind != "tcp"@ && kind != "local"@ {
                Err("tunnel kind must be tcp or local"@)
            } else {
                let f5 = tunnel_head(f0, str_or(base, "id"@, fresh_id), kind, name, flag_or_true(payload, base, "enabled"@), now);
                if kind == "tcp"@ {
                    match route_host_verdict(pick_base_str(payload, base, "sni"@, Seq::empty()), deny) {
                        Err(m) => Err(m),
                        Ok(sni) => match loopback_addr_verdict(pick_base_str(payload, base, "target"@, Seq::empty())) {
                            Err(m) => Err(m),
                            Ok(target) => Ok(tcp_tail(f5, sni, target, flag_or_true(payload, base, "passthrough"@), now)),
                        },
                    }
                } else {
                    let lp_raw = if blank_or_absent(jget(payload, "local_port"@)) {
                        match jget(base, "local_port"@) {
                            Some(v) => v,
                            None => JsonV::Int(0),
                        }
                    } else {
                        jget(payload, "local_port"@)->Some_0
                    };
                    match port_value(lp_raw) {
                        None => Err("invalid local_port"@),
                        Some(lp) => if lp < 1024 || lp > 65535 {
                            Err("local_port must be 1024-65535"@)
                        } else {
                            let node = trim(pick_base_str(payload, base, "node"@, tsh_node));
                            if !regex_match(NODE_PATTERN@, node) || contains(lower(node), "farmlink"@) {
                                Err("invalid Teleport node"@)
                            } else {
                                match reject_verdict(seq![node]) {
                                    Err(m) => Err(m),
                                    Ok(()) => match loopback_addr_verdict(pick_base_str(payload, base, "remote"@, Seq::empty())) {
                                        Err(m) => Err(m),
                                        Ok(remote) => Ok(local_tail(f5, lp, remote, node, now)),
                                    },
                                }
                            }
                        },
                    }
                }
            }
        },
    }
}

/// Reads a local port.
fn port_value_exec(v: &Json) -> (r: Option<i64>)
    ensures
        match port_value(v@) {
            Some(p) => r == Some(p as i64) && i64::MIN <= p <= i64::MAX,
            None => r is None,
        },
{
    match v {
        Json::Int(i) => Some(*i),
        Json::Str(s) => {
            let c = chars_of(s.as_str());
            match parse_int(&c, true, i64::MIN, i64::MAX) {
                Ok(x) => Some(x),
                Err(_) => None,
            }
        },
        _ => None,
    }
}

/// Builds the stored form of a TCP or local tunnel from a request and the tunnel being
/// edited, with `fresh_id` naming a new tunnel and `now` as the time stamp.
#[verifier::rlimit(80)]
pub fn normalize_tunnel_at(
    payload: &Json,
    existing: Option<&Json>,
    env: &RouteEnv,
    fresh_id: &str,
    now: &str,
) -> (r: Result<Json, String>)
    ensures
        match tunnel_verdict(payload@, match existing { Some(e) => Some(e@), None => None }, env.reserved@, env.deny@, env.tsh_node@, fresh_id@, now@) {
            Ok(f) => r matches Ok(j) && j@ == JsonV::Object(f),
            Err(m) => r matches Err(e) && e@ == m,
        },
{
    reveal(tunnel_verdict);
    let mut fields = base_fields_exec(existing);
    let base = Json::Object(clone_fields(&fields));
    proof {
        lemma_object_fview(base);
    }
    let name_raw = pick_base_plain(payload, &base, "name");
    let name = match validate_name(name_raw.as_str(), &env.reserved) {
        Ok(v) => v,
        Err(e) => return Err(e),
    };
    let kind_raw = pick_base_text(payload, &base, "kind", "local");
    let kc = chars_of(kind_raw.as_str());
    let kt = trim_chars(&kc);
    let kind = lower_chars(&kt);
    let tcp = chars_of("tcp");
    let local = chars_of("local");
    let is_tcp = eq_chars(&kind, &tcp);
    if !is_tcp && !eq_chars(&kind, &local) {
        return Err(String::from_str("tunnel kind must be tcp or local"));
    }
    let id = get_str_or(&base, "id", fresh_id);
    let enabled = flag_or_true_exec(payload, &base, "enabled");
    fill_tunnel_head(&mut fields, string_of(&id), string_of(&kind), name, enabled, now);
    if is_tcp {
        let sni_raw = pick_base_plain(payload, &base, "sni");
        let sni = match validate_host(sni_raw.as_str(), &env.deny) {
            Ok(v) => v,
            Err(e) => return Err(e),
        };
        let target_raw = pick_base_plain(payload, &base, "target");
        let target = match loopback_addr(target_raw.as_str()) {
            Ok(v) => v,
            Err(e) => return Err(e),
        };
        let pass = flag_or_true_exec(payload, &base, "passthrough");
        fill_tcp_tail(&mut fields, sni, target, pass, now);
    } else {
        let lp_raw: Json = if blank_or_absent_exec(get(payload, "local_port")) {
            match get(&base, "local_port") {
                Some(v) => clone_json(v),
                None => Json::Int(0),
            }
        } else {
            match get(payload, "local_port") {
                Some(v) => clone_json(v),
                None => Json::Int(0),
            }
        };
        let lp = match port_value_exec(&lp_raw) {
            Some(p) => p,
            None => return Err(String::from_str("invalid local_port")),
        };
        if lp < 1024 || lp > 65535 {
            return Err(String::from_str("local_port must be 1024-65535"));
        }
        let node_raw = pick_base_text(payload, &base, "node", env.tsh_node.as_str());
        let nc = chars_of(node_raw.as_str());
        let node = trim_chars(&nc);
        let node_s = string_of(&node);
        let node_low = lower_chars(&node);
        let farm = chars_of("farmlink");
        if !re_is_match(NODE_PATTERN, node_s.as_str()) || contains_chars(&node_low, &farm) {
            return Err(String::from_str("invalid Teleport node"));
        }
        match reject_one(&node) {
            Ok(()) => {},
            Err(e) => return Err(e),
        }
        let remote_raw = pick_base_plain(payload, &base, "remote");
        let remote = match loopback_addr(remote_raw.as_str()) {
            Ok(v) => v,
            Err(e) => return Err(e),
        };
        fill_local_tail(&mut fields, lp, remote, node_s, now);
    }
    let r = Json::Object(fields);
    proof {
        lemma_object_fview(r);
    }
    Ok(r)
}

} // verus!

verus! {

/// A stored route or tunnel answers to `ident` by id or by name.
pub open spec fn answers_to(v: JsonV, ident: Seq<char>) -> bool {
    v is Object && (jstr(jget(v, "id"@)) == Some(ident) || jstr(jget(v, "name"@)) == Some(ident))
}

/// Index of the first stored item answering to `ident` (trimmed).
pub open spec fn find_index(items: Seq<JsonV>, ident: Seq<char>) -> Option<int> {
    let t = trim(ident);
    if exists|i: int| 0 <= i < items.len() && #[trigger] answers_to(items[i], t) {
        Some(
            choose|i: int|
                0 <= i < items.len() && #[trigger] answers_to(items[i], t) && forall|j: int|
                    0 <= j < i ==> !#[trigger] answers_to(items[j], t),
        )
    } else {
        None
    }
}

/// A first item answering to `ident` exists whenever one does.
pub proof fn lemma_find_index(items: Seq<JsonV>, t: Seq<char>, n: int)
    requires
        0 <= n <= items.len(),
    ensures
        (exists|i: int| 0 <= i < n && #[trigger] answers_to(items[i], t)) ==> exists|i: int|
            0 <= i < n && #[trigger] answers_to(items[i], t) && forall|j: int|
                0 <= j < i ==> !#[trigger] answers_to(items[j], t),
    decreases n,
{
    if n > 0 {
        lemma_find_index(items, t, n - 1);
        if !(exists|i: int| 0 <= i < n - 1 && #[trigger] answers_to(items[i], t)) && answers_to(items[n - 1], t) {
            assert(forall|j: int| 0 <= j < n - 1 ==> !#[trigger] answers_to(items[j], t));
        }
    }
}

/// Finds the first stored route or tunnel answering to `ident` (trimmed) by id or name.
pub fn find_item(items: &Vec<Json>, ident: &str) -> (r: Option<usize>)
    ensures
        match r {
            Some(i) => find_index(jviews(items@), ident@) == Some(i as int) && i < items@.len()
                && answers_to(items@[i as int]@, trim(ident@)),
            None => find_index(jviews(items@), ident@) is None,
        },
{
    let ghost all = jviews(items@);
    let raw = chars_of(ident);
    let t = trim_chars(&raw);
    let mut i: usize = 0;
    while i < items.len()
        invariant
            i <= items@.len() == all.len(),
            all == jviews(items@),
            t@ == trim(ident@),
            forall|m: int| 0 <= m < i ==> !#[trigger] answers_to(all[m], t@),
        decreases items.len() - i,
    {
        assert(all[i as int] == items@[i as int]@);
        if is_object(&items[i]) && (field_is(&items[i], "id", &t) || field_is(&items[i], "name", &t)) {
            proof {
                assert(answers_to(all[i as int], t@));
                lemma_find_index(all, t@, all.len() as int);
                let w = find_index(all, ident@)->Some_0;
                if w < i {
                    assert(!answers_to(all[w], t@));
                } else if w > i {
                    assert(!answers_to(all[i as int], t@));
                }
            }
            return Some(i);
        }
        i = i + 1;
    }
    None
}

/// The identifier an upsert request names: its `id` field where present, else its `name`.
pub open spec fn request_ident(payload: JsonV) -> Seq<char> {
    let v = match jget(payload, "id"@) {
        Some(x) => jstr(Some(x)),
        None => jstr(jget(payload, "name"@)),
    };
    match v {
        Some(s) => s,
        None => Seq::empty(),
    }
}

/// Some stored item other than the one at `idx` is named `name`.
pub open spec fn other_named(items: Seq<JsonV>, idx: int, name: Seq<char>) -> bool {
    exists|i: int| 0 <= i < items.len() && i != idx && #[trigger] jstr(jget(items[i], "name"@)) == Some(name)
}

/// How an upsert ends: the stored item, the new list, and whether it was created.
pub open spec fn upsert_with(
    items: Seq<JsonV>,
    cur: Option<int>,
    item: JsonV,
    dup: Seq<char>,
) -> Result<(JsonV, Seq<JsonV>, bool), Seq<char>> {
    let name = str_or_empty(item, "name"@);
    match cur {
        None => if find_index(items, name) is Some {
            Err(dup)
        } else {
            Ok((item, items.push(item), true))
        },
        Some(idx) => if other_named(items, idx, name) {
            Err(dup)
        } else {
            Ok((item, items.update(idx, item), false))
        },
    }
}

/// What `upsert_route` answers: the stored route, the new route list and whether the route
/// was created (else updated), or the first error.
pub open spec fn upsert_route_verdict(
    routes: Seq<JsonV>,
    payload: JsonV,
    reserved: Seq<String>,
    deny: Seq<String>,
    fresh_id: Seq<char>,
    now: Seq<char>,
) -> Result<(JsonV, Seq<JsonV>, bool), Seq<char>> {
    let cur = find_index(routes, request_ident(payload));
    let existing = match cur {
        Some(i) => Some(routes[i]),
        None => None,
    };
    match route_verdict(payload, existing, reserved, deny, fresh_id, now) {
        Err(m) => Err(m),
        Ok(f) => upsert_with(routes, cur, JsonV::Object(f), "route name already exists"@),
    }
}

/// Whether some stored item other than the one at `idx` is named `name`.
fn other_named_exec(items: &Vec<Json>, idx: usize, name: &Vec<char>) -> (r: bool)
    ensures
        r == other_named(jviews(items@), idx as int, name@),
{
    let ghost all = jviews(items@);
    let mut i: usize = 0;
    while i < items.len()
        invariant
            i <= items@.len() == all.len(),
            all == jviews(items@),
            forall|m: int| 0 <= m < i && m != idx ==> #[trigger] jstr(jget(all[m], "name"@)) != Some(name@),
        decreases items.len() - i,
    {
        assert(all[i as int] == items@[i as int]@);
        if i != idx && field_is(&items[i], "name", name) {
            return true;
        }
        i = i + 1;
    }
    false
}

/// Stores `item` as a new entry or in place of the one at `cur`, refusing a name another
/// entry has.
fn upsert_into(items: &mut Vec<Json>, cur: Option<usize>, item: Json, dup: &str) -> (r: Result<(Json, bool), String>)
    requires
        cur matches Some(i) ==> i < old(items)@.len(),
    ensures
        match upsert_with(jviews(old(items)@), match cur { Some(i) => Some(i as int), None => None }, item@, dup@) {
            Ok((it, next, created)) => r matches Ok((j, c)) && j@ == it && c == created && jviews(final(items)@) == next,
            Err(m) => r matches Err(e) && e@ == m && final(items)@ == old(items)@,
        },
{
    let ghost all = jviews(items@);
    let name_s = get_str_or_empty(&item, "name");
    match cur {
        None => {
            if find_item(items, name_s.as_str()).is_some() {
                return Err(String::from_str(dup));
            }
            let out = clone_json(&item);
            let ghost iv = item@;
            items.push(item);
            assert(jviews(items@) =~= all.push(iv));
            Ok((out, true))
        },
        Some(idx) => {
            let name = chars_of(name_s.as_str());
            if other_named_exec(items, idx, &name) {
                return Err(String::from_str(dup));
            }
            let out = clone_json(&item);
            let ghost iv = item@;
            items.set(idx, item);
            assert(jviews(items@) =~= all.update(idx as int, iv));
            Ok((out, false))
        },
    }
}

} // verus!

verus! {

/// The identifier an upsert request names.
fn request_ident_exec(payload: &Json) -> (r: String)
    ensures
        r@ == request_ident(payload@),
{
    let v = match get(payload, "id") {
        Some(x) => match x {
            Json::Str(s) => Some(s),
            _ => None,
        },
        None => get_str(payload, "name"),
    };
    match v {
        Some(s) => s.clone(),
        None => String::new(),
    }
}

/// Creates or edits an HTTP route (`fresh_id` names a new one, `now` stamps it). On error
/// the list is unchanged.
pub fn upsert_route_at(
    routes: &mut Vec<Json>,
    payload: &Json,
    env: &RouteEnv,
    fresh_id: &str,
    now: &str,
) -> (r: Result<(Json, bool), String>)
    ensures
        match upsert_route_verdict(jviews(old(routes)@), payload@, env.reserved@, env.deny@, fresh_id@, now@) {
            Ok((it, next, created)) => r matches Ok((j, c)) && j@ == it && c == created && jviews(final(routes)@) == next,
            Err(m) => r matches Err(e) && e@ == m && final(routes)@ == old(routes)@,
        },
{
    let ident = request_ident_exec(payload);
    let cur = find_item(routes, ident.as_str());
    let item = match cur {
        Some(i) => {
            assert(jviews(routes@)[i as int] == routes@[i as int]@);
            normalize_route_at(payload, Some(&routes[i]), env, fresh_id, now)
        },
        None => normalize_route_at(payload, None, env, fresh_id, now),
    };
    let item = match item {
        Ok(j) => j,
        Err(e) => return Err(e),
    };
    upsert_into(routes, cur, item, "route name already exists")
}

/// Creates or edits an HTTP route with a fresh random id and the current time; see
/// `upsert_route_at`.
pub fn upsert_route(routes: &mut Vec<Json>, payload: &Json, env: &RouteEnv) -> (r: Result<(Json, bool), String>)
    ensures
        r is Err ==> final(routes)@ == old(routes)@,
        exists|id: Seq<char>, now: Seq<char>|
            id.len() == 12 && (forall|i: int| 0 <= i < 12 ==> #[trigger] crate::fresh::is_hex_lower(id[i]))
                && crate::fresh::clock_shaped(now, crate::fresh::stamp_tail())
                && match #[trigger] upsert_route_verdict(jviews(old(routes)@), payload@, env.reserved@, env.deny@, id, now) {
                Ok((it, next, created)) => r matches Ok((j, c)) && j@ == it && c == created && jviews(final(routes)@) == next,
                Err(m) => r matches Err(e) && e@ == m && final(routes)@ == old(routes)@,
            },
{
    let ghost before = jviews(routes@);
    let id = crate::fresh::new_id();
    let now = crate::fresh::utc_now();
    let r = upsert_route_at(routes, payload, env, id.as_str(), now.as_str());
    assert(match upsert_route_verdict(before, payload@, env.reserved@, env.deny@, id@, now@) {
        Ok((it, next, created)) => r matches Ok((j, c)) && j@ == it && c == created && jviews(routes@) == next,
        Err(m) => r matches Err(e) && e@ == m && jviews(routes@) == before,
    });
    r
}

/// What `upsert_tunnel` answers: the stored tunnel, the new tunnel list and whether the
/// tunnel was created (else updated), or the first error. An edited local tunnel has its
/// command derived again from its stored fields.
pub open spec fn upsert_tunnel_verdict(
    tunnels: Seq<JsonV>,
    payload: JsonV,
    reserved: Seq<String>,
    deny: Seq<String>,
    tsh_node: Seq<char>,
    fresh_id: Seq<char>,
    now: Seq<char>,
) -> Result<(JsonV, Seq<JsonV>, bool), Seq<char>> {
    let cur = find_index(tunnels, request_ident(payload));
    let existing = match cur {
        Some(i) => Some(tunnels[i]),
        None => None,
    };
    match tunnel_verdict(payload, existing, reserved, deny, tsh_node, fresh_id, now) {
        Err(m) => Err(m),
        Ok(f) => {
            let item0 = JsonV::Object(f);
            let item = if cur is Some && jstr(jget(item0, "kind"@)) == Some("local"@) {
                set_field(item0, "command"@, JsonV::Str(tsh_cmd_spec(item0)))
            } else {
                item0
            };
            upsert_with(tunnels, cur, item, "tunnel name already exists"@)
        },
    }
}

/// Creates or edits a TCP or local tunnel (`fresh_id` names a new one, `now` stamps it).
/// On error the list is unchanged.
pub fn upsert_tunnel_at(
    tunnels: &mut Vec<Json>,
    payload: &Json,
    env: &RouteEnv,
    fresh_id: &str,
    now: &str,
) -> (r: Result<(Json, bool), String>)
    ensures
        match upsert_tunnel_verdict(jviews(old(tunnels)@), payload@, env.reserved@, env.deny@, env.tsh_node@, fresh_id@, now@) {
            Ok((it, next, created)) => r matches Ok((j, c)) && j@ == it && c == created && jviews(final(tunnels)@) == next,
            Err(m) => r matches Err(e) && e@ == m && final(tunnels)@ == old(tunnels)@,
        },
{
    let ident = request_ident_exec(payload);
    let cur = find_item(tunnels, ident.as_str());
    let item = match cur {
        Some(i) => {
            assert(jviews(tunnels@)[i as int] == tunnels@[i as int]@);
            normalize_tunnel_at(payload, Some(&tunnels[i]), env, fresh_id, now)
        },
        None => normalize_tunnel_at(payload, None, env, fresh_id, now),
    };
    let item0 = match item {
        Ok(j) => j,
        Err(e) => return Err(e),
    };
    let local = chars_of("local");
    let is_local = field_is(&item0, "kind", &local);
    let item = if cur.is_some() && is_local {
        refresh_command(item0)
    } else {
        item0
    };
    upsert_into(tunnels, cur, item, "tunnel name already exists")
}

/// A tunnel with its `command` derived again from its fields.
fn refresh_command(item: Json) -> (r: Json)
    ensures
        r@ == set_field(item@, "command"@, JsonV::Str(tsh_cmd_spec(item@))),
{
    let cmd = tsh_cmd(&item);
    match item {
        Json::Object(mut fields) => {
            proof {
                lemma_object_fview(Json::Object(fields));
            }
            obj_set(&mut fields, "command", Json::Str(cmd));
            let j = Json::Object(fields);
            proof {
                lemma_object_fview(j);
            }
            j
        },
        other => other,
    }
}

/// The id and name of a stored item, `""` where absent.
fn id_and_name(item: &Json) -> (r: (Json, Json))
    ensures
        r.0@ == match jget(item@, "id"@) {
            Some(v) => v,
            None => JsonV::Str(Seq::empty()),
        },
        r.1@ == match jget(item@, "name"@) {
            Some(v) => v,
            None => JsonV::Str(Seq::empty()),
        },
{
    let id = match get(item, "id") {
        Some(v) => clone_json(v),
        None => Json::Str(String::new()),
    };
    let name = match get(item, "name") {
        Some(v) => clone_json(v),
        None => Json::Str(String::new()),
    };
    (id, name)
}

/// Creates or edits a tunnel with a fresh random id and the current time; see
/// `upsert_tunnel_at`.
pub fn upsert_tunnel(tunnels: &mut Vec<Json>, payload: &Json, env: &RouteEnv) -> (r: Result<(Json, bool), String>)
    ensures
        r is Err ==> final(tunnels)@ == old(tunnels)@,
        exists|id: Seq<char>, now: Seq<char>|
            id.len() == 12 && (forall|i: int| 0 <= i < 12 ==> #[trigger] crate::fresh::is_hex_lower(id[i]))
                && crate::fresh::clock_shaped(now, crate::fresh::stamp_tail())
                && match #[trigger] upsert_tunnel_verdict(jviews(old(tunnels)@), payload@, env.reserved@, env.deny@, env.tsh_node@, id, now) {
                Ok((it, next, created)) => r matches Ok((j, c)) && j@ == it && c == created && jviews(final(tunnels)@) == next,
                Err(m) => r matches Err(e) && e@ == m && final(tunnels)@ == old(tunnels)@,
            },
{
    let ghost before = jviews(tunnels@);
    let id = crate::fresh::new_id();
    let now = crate::fresh::utc_now();
    let r = upsert_tunnel_at(tunnels, payload, env, id.as_str(), now.as_str());
    assert(match upsert_tunnel_verdict(before, payload@, env.reserved@, env.deny@, env.tsh_node@, id@, now@) {
        Ok((it, next, created)) => r matches Ok((j, c)) && j@ == it && c == created && jviews(tunnels@) == next,
        Err(m) => r matches Err(e) && e@ == m && jviews(tunnels@) == before,
    });
    r
}

/// What `delete_route` / `delete_tunnel` answer: the removed item's id (or "") and name (or
/// ""), and the new list; or `not_found`.
pub open spec fn remove_verdict(items: Seq<JsonV>, ident: Seq<char>, not_found: Seq<char>) -> Result<
    (JsonV, JsonV, Seq<JsonV>),
    Seq<char>,
> {
    match find_index(items, ident) {
        None => Err(not_found),
        Some(i) => Ok(
            (
                match jget(items[i], "id"@) {
                    Some(v) => v,
                    None => JsonV::Str(Seq::empty()),
                },
                match jget(items[i], "name"@) {
                    Some(v) => v,
                    None => JsonV::Str(Seq::empty()),
                },
                items.remove(i),
            ),
        ),
    }
}

/// Removes the first item answering to `ident`; answers its id and name.
fn remove_item(items: &mut Vec<Json>, ident: &str, not_found: &str) -> (r: Result<(Json, Json), String>)
    ensures
        match remove_verdict(jviews(old(items)@), ident@, not_found@) {
            Ok((id, name, next)) => r matches Ok((a, b)) && a@ == id && b@ == name && jviews(final(items)@) == next,
            Err(m) => r matches Err(e) && e@ == m && final(items)@ == old(items)@,
        },
{
    let ghost all = jviews(items@);
    let idx = match find_item(items, ident) {
        Some(i) => i,
        None => return Err(String::from_str(not_found)),
    };
    assert(all[idx as int] == items@[idx as int]@);
    let (id, name) = id_and_name(&items[idx]);
    items.remove(idx);
    assert(jviews(items@) =~= all.remove(idx as int));
    Ok((id, name))
}

/// Deletes the first route answering to `ident`; answers the deleted route's id and name.
pub fn delete_route(routes: &mut Vec<Json>, ident: &str) -> (r: Result<(Json, Json), String>)
    ensures
        match remove_verdict(jviews(old(routes)@), ident@, "route not found"@) {
            Ok((id, name, next)) => r matches Ok((a, b)) && a@ == id && b@ == name && jviews(final(routes)@) == next,
            Err(m) => r matches Err(e) && e@ == m && final(routes)@ == old(routes)@,
        },
{
    remove_item(routes, ident, "route not found")
}

/// Deletes the first tunnel answering to `ident`; answers the deleted tunnel's id and name.
pub fn delete_tunnel(tunnels: &mut Vec<Json>, ident: &str) -> (r: Result<(Json, Json), String>)
    ensures
        match remove_verdict(jviews(old(tunnels)@), ident@, "tunnel not found"@) {
            Ok((id, name, next)) => r matches Ok((a, b)) && a@ == id && b@ == name && jviews(final(tunnels)@) == next,
            Err(m) => r matches Err(e) && e@ == m && final(tunnels)@ == old(tunnels)@,
        },
{
    remove_item(tunnels, ident, "tunnel not found")
}

} // verus!

verus! {

/// No two stored routes (or tunnels) share a name.
pub open spec fn route_names_unique(items: Seq<JsonV>) -> bool {
    forall|i: int, j: int|
        0 <= i < items.len() && 0 <= j < items.len() && i != j && #[trigger] jstr(jget(items[i], "name"@)) is Some
            ==> jstr(jget(items[i], "name"@)) != #[trigger] jstr(jget(items[j], "name"@))
}

/// Storing a route or tunnel, created or edited, keeps names unique (for a name without
/// surrounding blanks, as every validated name is).
pub proof fn law_upsert_keeps_names_unique(items: Seq<JsonV>, cur: Option<int>, item: JsonV, dup: Seq<char>)
    requires
        route_names_unique(items),
        cur matches Some(i) ==> 0 <= i < items.len(),
        trim(str_or_empty(item, "name"@)) == str_or_empty(item, "name"@),
        upsert_with(items, cur, item, dup) is Ok,
    ensures
        route_names_unique(upsert_with(items, cur, item, dup)->Ok_0.1),
{
    let next = upsert_with(items, cur, item, dup)->Ok_0.1;
    let name = str_or_empty(item, "name"@);
    match cur {
        None => {
            assert forall|i: int| 0 <= i < items.len() implies #[trigger] jstr(jget(items[i], "name"@)) != jstr(jget(item, "name"@))
                || jstr(jget(item, "name"@)) is None by {
                if jstr(jget(item, "name"@)) is Some && jstr(jget(items[i], "name"@)) == jstr(jget(item, "name"@)) {
                    assert(jstr(jget(items[i], "name"@)) == Some(name));
                    assert(answers_to(items[i], trim(name)));
                }
            }
            assert forall|i: int, j: int|
                0 <= i < next.len() && 0 <= j < next.len() && i != j && #[trigger] jstr(jget(next[i], "name"@)) is Some
                    implies jstr(jget(next[i], "name"@)) != #[trigger] jstr(jget(next[j], "name"@)) by {
                if i == items.len() as int {
                    assert(next[j] == items[j]);
                } else if j == items.len() as int {
                    assert(next[i] == items[i]);
                } else {
                    assert(next[i] == items[i] && next[j] == items[j]);
                }
            }
        },
        Some(idx) => {
            assert forall|i: int, j: int|
                0 <= i < next.len() && 0 <= j < next.len() && i != j && #[trigger] jstr(jget(next[i], "name"@)) is Some
                    implies jstr(jget(next[i], "name"@)) != #[trigger] jstr(jget(next[j], "name"@)) by {
                if i == idx {
                    assert(next[j] == items[j]);
                    if jstr(jget(items[j], "name"@)) == jstr(jget(item, "name"@)) {
                        assert(jstr(jget(items[j], "name"@)) == Some(name));
                    }
                } else if j == idx {
                    assert(next[i] == items[i]);
                    if jstr(jget(items[i], "name"@)) == jstr(jget(item, "name"@)) {
                        assert(jstr(jget(items[i], "name"@)) == Some(name));
                    }
                } else {
                    assert(next[i] == items[i] && next[j] == items[j]);
                }
            }
        },
    }
}

} // verus!

verus! {

/// A hexadecimal digit in lowercase.
pub open spec fn hex_digit(n: int) -> char {
    if n < 10 {
        (n + '0' as int) as char
    } else {
        (n - 10 + 'a' as int) as char
    }
}

/// How serde_json writes one character inside a JSON string.
pub open spec fn json_char(c: char) -> Seq<char> {
    if c == '"' {
        seq!['\\', '"']
    } else if c == '\\' {
        seq!['\\', '\\']
    } else if c == '\u{8}' {
        seq!['\\', 'b']
    } else if c == '\t' {
        seq!['\\', 't']
    } else if c == '\n' {
        seq!['\\', 'n']
    } else if c == '\u{c}' {
        seq!['\\', 'f']
    } else if c == '\r' {
        seq!['\\', 'r']
    } else if (c as int) < 0x20 {
        seq!['\\', 'u', '0', '0', hex_digit((c as int) / 16), hex_digit((c as int) % 16)]
    } else {
        seq![c]
    }
}

/// The escaped characters of a JSON string body.
pub open spec fn json_body(s: Seq<char>) -> Seq<char>
    decreases s.len(),
{
    if s.len() == 0 {
        Seq::empty()
    } else {
        json_body(s.drop_last()) + json_char(s.last())
    }
}

/// A string as a JSON string literal.
pub open spec fn json_quoted(s: Seq<char>) -> Seq<char> {
    seq!['"'] + json_body(s) + seq!['"']
}

/// A string as a JSON string literal, as `serde_json::to_string` writes it: in double
/// quotes, with `"`, `\` and the control characters below U+0020 escaped (`\b \t \n \f \r`,
/// else `\u00xx` in lowercase hex).
fn json_string(s: &str) -> (r: String)
    ensures
        r@ == json_quoted(s@),
{
    let mut out: Vec<char> = Vec::new();
    crate::json::append_quoted(&mut out, s);
    assert(out@ =~= json_quoted(s@));
    string_of(&out)
}

/// How a scalar is written in the sidecar YAML: bare when it only holds safe characters,
/// else as a JSON string.
pub open spec fn yaml_quote_spec(v: Seq<char>) -> Seq<char> {
    if regex_match(YAML_SAFE_PATTERN@, v) {
        v
    } else {
        json_quoted(v)
    }
}

/// Quotes a scalar for the sidecar YAML.
pub fn yaml_quote(value: &str) -> (r: String)
    ensures
        r@ == yaml_quote_spec(value@),
{
    if re_is_match(YAML_SAFE_PATTERN, value) {
        String::from_str(value)
    } else {
        json_string(value)
    }
}

/// An item of kind `kind` that is an enabled object.
pub open spec fn live_item(v: JsonV, kind: Seq<char>) -> bool {
    v is Object && bool_or(v, "enabled"@, true) && jstr(jget(v, "kind"@)) == Some(kind)
}

/// Bullet lines of a YAML list at the middleware indent.
pub open spec fn bullets(ms: Seq<Seq<char>>) -> Seq<char>
    decreases ms.len(),
{
    if ms.len() == 0 {
        Seq::empty()
    } else {
        bullets(ms.drop_last()) + "        - "@ + ms.last() + "\n"@
    }
}

/// The router block of an HTTP route.
pub open spec fn http_router_text(v: JsonV) -> Seq<char> {
    let name = str_or_empty(v, "name"@);
    let ms = middlewares_spec(str_or(v, "chain"@, "domain-security-chain"@));
    "    "@ + name + ":\n"@ + "      rule: "@ + yaml_quote_spec(
        http_rule_spec(str_or_empty(v, "host"@), str_or_empty(v, "path_prefix"@)),
    ) + "\n"@ + "      priority: "@ + int_text(
        match ji64(jget(v, "priority"@)) {
            Some(p) => p,
            None => 90,
        },
    ) + "\n"@ + "      entryPoints:\n        - websecure\n"@ + "      service: "@ + name + "\n"@
        + (if ms.len() > 0 { "      middlewares:\n"@ + bullets(ms) } else { Seq::empty() })
        + (if bool_or(v, "tls"@, true) { "      tls:\n        certResolver: letsencrypt-http\n"@ } else { Seq::empty() })
}

/// The service block of an HTTP route.
pub open spec fn http_service_text(v: JsonV) -> Seq<char> {
    "    "@ + str_or_empty(v, "name"@) + ":\n"@ + "      loadBalancer:\n        servers:\n"@
        + "          - url: "@ + yaml_quote_spec(str_or_empty(v, "service_url"@)) + "\n"@
        + "        passHostHeader: true\n"@
}

/// The router block of a TCP tunnel.
pub open spec fn tcp_router_text(v: JsonV) -> Seq<char> {
    let name = str_or_empty(v, "name"@);
    "    "@ + name + ":\n"@ + "      entryPoints:\n        - websecure\n"@ + "      rule: "@
        + yaml_quote_spec("HostSNI(`"@ + str_or_empty(v, "sni"@) + "`)"@) + "\n"@ + "      service: "@ + name
        + "\n"@ + "      tls:\n"@ + "        passthrough: "@ + (if bool_or(v, "passthrough"@, true) {
        "true"@
    } else {
        "false"@
    }) + "\n"@
}

/// The service block of a TCP tunnel.
pub open spec fn tcp_service_text(v: JsonV) -> Seq<char> {
    "    "@ + str_or_empty(v, "name"@) + ":\n"@ + "      loadBalancer:\n        servers:\n"@
        + "          - address: "@ + yaml_quote_spec(str_or_empty(v, "target"@)) + "\n"@
}

/// The blocks (`service` false: routers, true: services) of the live items of `kind`.
pub open spec fn blocks(items: Seq<JsonV>, kind: Seq<char>, service: bool) -> Seq<char>
    decreases items.len(),
{
    if items.len() == 0 {
        Seq::empty()
    } else {
        let v = items.last();
        let t = if !live_item(v, kind) {
            Seq::empty()
        } else if kind == "http"@ {
            if service { http_service_text(v) } else { http_router_text(v) }
        } else {
            if service { tcp_service_text(v) } else { tcp_router_text(v) }
        };
        blocks(items.drop_last(), kind, service) + t
    }
}

/// Some item of `kind` is live.
pub open spec fn any_live(items: Seq<JsonV>, kind: Seq<char>) -> bool {
    exists|i: int| 0 <= i < items.len() && #[trigger] live_item(items[i], kind)
}

/// The sidecar dynamic-configuration file for the stored routes and tunnels.
pub open spec fn sidecar_document(routes: Seq<JsonV>, tunnels: Seq<JsonV>) -> Seq<char> {
    let http = any_live(routes, "http"@);
    let tcp = any_live(tunnels, "tcp"@);
    "# Managed by the WAF console. Do not edit by hand.\n"@
        + "# Sidecar file provider only. Main dynamic.yaml stays untouched.\n"@
        + (if http {
        "http:\n  routers:\n"@ + blocks(routes, "http"@, false) + "  services:\n"@ + blocks(routes, "http"@, true)
    } else {
        Seq::empty()
    }) + (if tcp {
        "tcp:\n  routers:\n"@ + blocks(tunnels, "tcp"@, false) + "  services:\n"@ + blocks(tunnels, "tcp"@, true)
    } else {
        Seq::empty()
    }) + (if !http && !tcp {
        "# No operator HTTP/TCP items. This file must not define empty http/tcp maps.\n"@
    } else {
        Seq::empty()
    })
}

/// What `render_yaml` answers: the sidecar file, unless it would hold an empty map.
pub open spec fn sidecar_verdict(routes: Seq<JsonV>, tunnels: Seq<JsonV>) -> Result<Seq<char>, Seq<char>> {
    let doc = sidecar_document(routes, tunnels);
    if contains(doc, "routers: {}"@) || contains(doc, "services: {}"@) {
        Err("refusing empty Traefik http/tcp maps (sidecar would clobber HostSNI)"@)
    } else {
        Ok(doc)
    }
}

/// Whether an item is live.
fn live_item_exec(v: &Json, kind: &Vec<char>) -> (r: bool)
    ensures
        r == live_item(v@, kind@),
{
    is_object(v) && get_bool_or(v, "enabled", true) && field_is(v, "kind", kind)
}

/// Appends the middleware bullet lines.
fn append_bullets(out: &mut Vec<char>, ms: &Vec<String>)
    ensures
        final(out)@ == old(out)@ + bullets(ms@.map_values(|m: String| m@)),
{
    let ghost o = out@;
    let ghost all = ms@.map_values(|m: String| m@);
    let mut i: usize = 0;
    assert(all.take(0) =~= Seq::<Seq<char>>::empty());
    assert(o + Seq::<char>::empty() =~= o);
    while i < ms.len()
        invariant
            i <= ms.len(),
            all == ms@.map_values(|m: String| m@),
            out@ == o + bullets(all.take(i as int)),
        decreases ms.len() - i,
    {
        assert(all.take(i + 1).drop_last() =~= all.take(i as int));
        assert(all.take(i + 1).last() == ms@[i as int]@);
        append_str(out, "        - ");
        append_str(out, ms[i].as_str());
        append_str(out, "\n");
        i = i + 1;
    }
    assert(all.take(ms.len() as int) =~= all);
}

/// The router block of an HTTP route.
fn http_router_exec(v: &Json) -> (t: Vec<char>)
    ensures
        t@ == http_router_text(v@),
{
    let name = get_str_or_empty(v, "name");
    let chain_s = get_str_or(v, "chain", "domain-security-chain");
    let chain_str = string_of(&chain_s);
    let ms = middlewares(chain_str.as_str());
    let host = get_str_or_empty(v, "host");
    let path = get_str_or_empty(v, "path_prefix");
    let rule = http_rule(host.as_str(), path.as_str());
    let q = yaml_quote(rule.as_str());
    let pri: i64 = match get_i64(v, "priority") {
        Some(p) => p,
        None => 90,
    };
    let mut t: Vec<char> = Vec::new();
    append_str(&mut t, "    ");
    append_str(&mut t, name.as_str());
    append_str(&mut t, ":\n");
    append_str(&mut t, "      rule: ");
    append_str(&mut t, q.as_str());
    append_str(&mut t, "\n");
    append_str(&mut t, "      priority: ");
    let pt = int_text_exec(pri);
    append_chars(&mut t, &pt);
    append_str(&mut t, "\n");
    append_str(&mut t, "      entryPoints:\n        - websecure\n");
    append_str(&mut t, "      service: ");
    append_str(&mut t, name.as_str());
    append_str(&mut t, "\n");
    let ghost before_mw = t@;
    let ghost msv = middlewares_spec(chain_s@);
    assert(ms@.map_values(|m: String| m@) =~= msv);
    if ms.len() > 0 {
        append_str(&mut t, "      middlewares:\n");
        append_bullets(&mut t, &ms);
    }
    let ghost before_tls = t@;
    assert(before_tls == before_mw + (if msv.len() > 0 { "      middlewares:\n"@ + bullets(msv) } else { Seq::<char>::empty() }));
    if get_bool_or(v, "tls", true) {
        append_str(&mut t, "      tls:\n        certResolver: letsencrypt-http\n");
    }
    t
}

/// The service block of an HTTP route.
fn http_service_exec(v: &Json) -> (t: Vec<char>)
    ensures
        t@ == http_service_text(v@),
{
    let name = get_str_or_empty(v, "name");
    let url = get_str_or_empty(v, "service_url");
    let q = yaml_quote(url.as_str());
    let mut t: Vec<char> = Vec::new();
    append_str(&mut t, "    ");
    append_str(&mut t, name.as_str());
    append_str(&mut t, ":\n");
    append_str(&mut t, "      loadBalancer:\n        servers:\n");
    append_str(&mut t, "          - url: ");
    append_str(&mut t, q.as_str());
    append_str(&mut t, "\n");
    append_str(&mut t, "        passHostHeader: true\n");
    t
}

/// The router block of a TCP tunnel.
fn tcp_router_exec(v: &Json) -> (t: Vec<char>)
    ensures
        t@ == tcp_router_text(v@),
{
    let name = get_str_or_empty(v, "name");
    let sni = get_str_or_empty(v, "sni");
    let mut rule: Vec<char> = Vec::new();
    append_str(&mut rule, "HostSNI(`");
    append_str(&mut rule, sni.as_str());
    append_str(&mut rule, "`)");
    let rs = string_of(&rule);
    let q = yaml_quote(rs.as_str());
    let mut t: Vec<char> = Vec::new();
    append_str(&mut t, "    ");
    append_str(&mut t, name.as_str());
    append_str(&mut t, ":\n");
    append_str(&mut t, "      entryPoints:\n        - websecure\n");
    append_str(&mut t, "      rule: ");
    append_str(&mut t, q.as_str());
    append_str(&mut t, "\n");
    append_str(&mut t, "      service: ");
    append_str(&mut t, name.as_str());
    append_str(&mut t, "\n");
    append_str(&mut t, "      tls:\n");
    append_str(&mut t, "        passthrough: ");
    if get_bool_or(v, "passthrough", true) {
        append_str(&mut t, "true");
    } else {
        append_str(&mut t, "false");
    }
    append_str(&mut t, "\n");
    t
}

/// The service block of a TCP tunnel.
fn tcp_service_exec(v: &Json) -> (t: Vec<char>)
    ensures
        t@ == tcp_service_text(v@),
{
    let name = get_str_or_empty(v, "name");
    let target = get_str_or_empty(v, "target");
    let q = yaml_quote(target.as_str());
    let mut t: Vec<char> = Vec::new();
    append_str(&mut t, "    ");
    append_str(&mut t, name.as_str());
    append_str(&mut t, ":\n");
    append_str(&mut t, "      loadBalancer:\n        servers:\n");
    append_str(&mut t, "          - address: ");
    append_str(&mut t, q.as_str());
    append_str(&mut t, "\n");
    t
}

/// The router and service blocks of the live items of `kind`, and whether there are any.
fn collect_blocks(items: &[Json], kind: &str) -> (r: (Vec<char>, Vec<char>, bool))
    requires
        kind@ == "http"@ || kind@ == "tcp"@,
    ensures
        r.0@ == blocks(jviews(items@), kind@, false),
        r.1@ == blocks(jviews(items@), kind@, true),
        r.2 == any_live(jviews(items@), kind@),
{
    let ghost all = jviews(items@);
    let k = chars_of(kind);
    let http = chars_of("http");
    let is_http = eq_chars(&k, &http);
    let mut routers: Vec<char> = Vec::new();
    let mut services: Vec<char> = Vec::new();
    let mut any = false;
    let mut i: usize = 0;
    assert(all.take(0) =~= Seq::<JsonV>::empty());
    while i < items.len()
        invariant
            i <= items@.len() == all.len(),
            all == jviews(items@),
            k@ == kind@,
            is_http == (kind@ == "http"@),
            routers@ == blocks(all.take(i as int), kind@, false),
            services@ == blocks(all.take(i as int), kind@, true),
            any == exists|m: int| 0 <= m < i && #[trigger] live_item(all[m], kind@),
        decreases items.len() - i,
    {
        assert(all.take(i + 1).drop_last() =~= all.take(i as int));
        assert(all.take(i + 1).last() == items@[i as int]@);
        assert(all[i as int] == items@[i as int]@);
        if live_item_exec(&items[i], &k) {
            if is_http {
                let a = http_router_exec(&items[i]);
                let b = http_service_exec(&items[i]);
                append_chars(&mut routers, &a);
                append_chars(&mut services, &b);
            } else {
                let a = tcp_router_exec(&items[i]);
                let b = tcp_service_exec(&items[i]);
                append_chars(&mut routers, &a);
                append_chars(&mut services, &b);
            }
            any = true;
        } else {
            assert(routers@ + Seq::<char>::empty() =~= routers@);
            assert(services@ + Seq::<char>::empty() =~= services@);
        }
        i = i + 1;
    }
    assert(all.take(items.len() as int) =~= all);
    (routers, services, any)
}

/// Renders the Traefik sidecar file for the stored routes and tunnels.
pub fn render_sidecar(routes: &[Json], tunnels: &[Json]) -> (r: Result<String, String>)
    ensures
        match sidecar_verdict(jviews(routes@), jviews(tunnels@)) {
            Ok(t) => r matches Ok(s) && s@ == t,
            Err(m) => r matches Err(e) && e@ == m,
        },
{
    proof {
        reveal_strlit("http");
        reveal_strlit("tcp");
    }
    let (hr, hs, http) = collect_blocks(routes, "http");
    let (tr, ts, tcp) = collect_blocks(tunnels, "tcp");
    let mut doc: Vec<char> = Vec::new();
    append_str(&mut doc, "# Managed by the WAF console. Do not edit by hand.\n");
    append_str(&mut doc, "# Sidecar file provider only. Main dynamic.yaml stays untouched.\n");
    if http {
        append_str(&mut doc, "http:\n  routers:\n");
        append_chars(&mut doc, &hr);
        append_str(&mut doc, "  services:\n");
        append_chars(&mut doc, &hs);
    }
    if tcp {
        append_str(&mut doc, "tcp:\n  routers:\n");
        append_chars(&mut doc, &tr);
        append_str(&mut doc, "  services:\n");
        append_chars(&mut doc, &ts);
    }
    if !http && !tcp {
        append_str(&mut doc, "# No operator HTTP/TCP items. This file must not define empty http/tcp maps.\n");
    }
    assert(doc@ =~= sidecar_document(jviews(routes@), jviews(tunnels@)));
    let e1 = chars_of("routers: {}");
    let e2 = chars_of("services: {}");
    if contains_chars(&doc, &e1) || contains_chars(&doc, &e2) {
        return Err(String::from_str("refusing empty Traefik http/tcp maps (sidecar would clobber HostSNI)"));
    }
    Ok(string_of(&doc))
}

} // verus!

verus! {

/// Accepts one chunk read from a response into `buf`: `Ok(false)` at the end of the stream
/// (an empty chunk), `Ok(true)` once appended, or an error when the response would exceed
/// `max_bytes` (then `buf` is unchanged).
pub fn read_limited(buf: &mut Vec<u8>, chunk: &[u8], max_bytes: usize) -> (r: Result<bool, String>)
    ensures
        chunk@.len() == 0 ==> r == Ok::<bool, String>(false) && final(buf)@ == old(buf)@,
        chunk@.len() > 0 && old(buf)@.len() + chunk@.len() > max_bytes ==> (r matches Err(e)
            && e@ == "response exceeds size limit"@ && final(buf)@ == old(buf)@),
        chunk@.len() > 0 && old(buf)@.len() + chunk@.len() <= max_bytes ==> r == Ok::<bool, String>(true)
            && final(buf)@ == old(buf)@ + chunk@,
{
    if chunk.len() == 0 {
        return Ok(false);
    }
    if chunk.len() > max_bytes || buf.len() > max_bytes - chunk.len() {
        return Err(String::from_str("response exceeds size limit"));
    }
    let ghost b0 = buf@;
    let mut i: usize = 0;
    assert(b0 + chunk@.take(0) =~= b0);
    while i < chunk.len()
        invariant
            i <= chunk@.len(),
            buf@ == b0 + chunk@.take(i as int),
        decreases chunk.len() - i,
    {
        buf.push(chunk[i]);
        assert(b0 + chunk@.take(i as int).push(chunk@[i as int]) =~= b0 + chunk@.take(i + 1));
        i = i + 1;
    }
    assert(chunk@.take(chunk@.len() as int) =~= chunk@);
    Ok(true)
}

/// The body of a raw HTTP response: what follows the first blank line (`\r\n\r\n`), or all
/// of it when there is none.
pub open spec fn body_start(raw: Seq<u8>) -> int {
    if exists|i: int| 0 <= i && i + 4 <= raw.len() && #[trigger] is_crlf2(raw, i) {
        (choose|i: int| 0 <= i && i + 4 <= raw.len() && #[trigger] is_crlf2(raw, i) && forall|j: int|
            0 <= j < i ==> !#[trigger] is_crlf2(raw, j)) + 4
    } else {
        0
    }
}

/// `\r\n\r\n` starts at `i`.
pub open spec fn is_crlf2(raw: Seq<u8>, i: int) -> bool {
    i + 4 <= raw.len() && raw[i] == 13u8 && raw[i + 1] == 10u8 && raw[i + 2] == 13u8 && raw[i + 3] == 10u8
}

/// Splits the body off a raw HTTP response.
pub fn http_body(raw: &Vec<u8>) -> (r: Vec<u8>)
    ensures
        r@ == raw@.subrange(body_start(raw@), raw@.len() as int),
{
    let mut i: usize = 0;
    while raw.len() >= 4 && i <= raw.len() - 4
        invariant
            i <= raw.len(),
            forall|j: int| 0 <= j < i ==> !#[trigger] is_crlf2(raw@, j),
        decreases raw.len() - i,
    {
        if raw[i] == 13u8 && raw[i + 1] == 10u8 && raw[i + 2] == 13u8 && raw[i + 3] == 10u8 {
            proof {
                assert(is_crlf2(raw@, i as int));
                let w = choose|w: int| 0 <= w && w + 4 <= raw@.len() && #[trigger] is_crlf2(raw@, w) && forall|j: int|
                    0 <= j < w ==> !#[trigger] is_crlf2(raw@, j);
                assert(exists|w: int| 0 <= w && w + 4 <= raw@.len() && #[trigger] is_crlf2(raw@, w) && forall|j: int|
                    0 <= j < w ==> !#[trigger] is_crlf2(raw@, j)) by {
                    assert(forall|j: int| 0 <= j < i ==> !#[trigger] is_crlf2(raw@, j));
                }
                if w < i {
                } else if w > i {
                    assert(!is_crlf2(raw@, i as int));
                }
            }
            return copy_from(raw, i + 4);
        }
        i = i + 1;
    }
    proof {
        assert forall|j: int| 0 <= j && j + 4 <= raw@.len() implies !#[trigger] is_crlf2(raw@, j) by {
            if j >= i {
                assert(j + 4 > raw@.len());
            }
        }
    }
    copy_from(raw, 0)
}

/// The bytes of `raw` from `start` on.
fn copy_from(raw: &Vec<u8>, start: usize) -> (r: Vec<u8>)
    requires
        start <= raw@.len(),
    ensures
        r@ == raw@.subrange(start as int, raw@.len() as int),
{
    let mut r: Vec<u8> = Vec::new();
    let mut i = start;
    while i < raw.len()
        invariant
            start <= i <= raw@.len(),
            r@ == raw@.subrange(start as int, i as int),
        decreases raw.len() - i,
    {
        r.push(raw[i]);
        assert(raw@.subrange(start as int, i as int).push(raw@[i as int]) =~= raw@.subrange(start as int, i + 1));
        i = i + 1;
    }
    r
}

/// A field copied into a summary row: the value, or `null` where absent.
pub open spec fn or_null(v: Option<JsonV>) -> JsonV {
    match v {
        Some(x) => x,
        None => JsonV::Null,
    }
}

/// A field copied into a summary row: the value, or `[]` where absent.
pub open spec fn or_empty_array(v: Option<JsonV>) -> JsonV {
    match v {
        Some(x) => x,
        None => JsonV::Array(Seq::empty()),
    }
}

/// The summary row of a live Traefik HTTP router.
pub open spec fn http_row(v: JsonV) -> JsonV {
    JsonV::Object(
        seq![
            ("name"@, or_null(jget(v, "name"@))),
            ("rule"@, or_null(jget(v, "rule"@))),
            ("service"@, or_null(jget(v, "service"@))),
            ("status"@, or_null(jget(v, "status"@))),
            ("provider"@, or_null(jget(v, "provider"@))),
            ("priority"@, or_null(jget(v, "priority"@))),
            ("middlewares"@, or_empty_array(jget(v, "middlewares"@))),
            ("entry_points"@, or_empty_array(
                match jget(v, "using"@) {
                    Some(u) => Some(u),
                    None => jget(v, "entryPoints"@),
                },
            )),
        ],
    )
}

/// The summary row of a live Traefik TCP router.
pub open spec fn tcp_row(v: JsonV) -> JsonV {
    JsonV::Object(
        seq![
            ("name"@, or_null(jget(v, "name"@))),
            ("rule"@, or_null(jget(v, "rule"@))),
            ("service"@, or_null(jget(v, "service"@))),
            ("status"@, or_null(jget(v, "status"@))),
            ("provider"@, or_null(jget(v, "provider"@))),
        ],
    )
}

/// The rows of the objects among `items`, in order, at most `limit` of them.
pub open spec fn live_rows(items: Seq<JsonV>, http: bool, limit: nat) -> Seq<JsonV>
    decreases items.len(),
{
    if items.len() == 0 {
        Seq::empty()
    } else {
        let prev = live_rows(items.drop_last(), http, limit);
        if prev.len() >= limit || !(items.last() is Object) {
            prev
        } else {
            prev.push(if http { http_row(items.last()) } else { tcp_row(items.last()) })
        }
    }
}

/// A copied field, `null` where absent.
fn copy_or_null(v: &Json, key: &str) -> (r: Json)
    ensures
        r@ == or_null(jget(v@, key@)),
{
    match get(v, key) {
        Some(x) => clone_json(x),
        None => Json::Null,
    }
}

/// An empty JSON array.
pub fn empty_array() -> (r: Json)
    ensures
        r@ == JsonV::Array(Seq::empty()),
{
    let r = Json::Array(Vec::new());
    proof {
        crate::json::lemma_array_view(r);
        assert(r@->Array_0 =~= Seq::<JsonV>::empty());
    }
    r
}

/// One summary row.
fn live_row(v: &Json, http: bool) -> (r: Json)
    ensures
        r@ == if http { http_row(v@) } else { tcp_row(v@) },
{
    let mut f: Vec<(String, Json)> = Vec::new();
    f.push((String::from_str("name"), copy_or_null(v, "name")));
    f.push((String::from_str("rule"), copy_or_null(v, "rule")));
    f.push((String::from_str("service"), copy_or_null(v, "service")));
    f.push((String::from_str("status"), copy_or_null(v, "status")));
    f.push((String::from_str("provider"), copy_or_null(v, "provider")));
    if http {
        f.push((String::from_str("priority"), copy_or_null(v, "priority")));
        let mw = match get(v, "middlewares") {
            Some(x) => clone_json(x),
            None => empty_array(),
        };
        f.push((String::from_str("middlewares"), mw));
        let ep = match get(v, "using") {
            Some(x) => clone_json(x),
            None => match get(v, "entryPoints") {
                Some(x) => clone_json(x),
                None => empty_array(),
            },
        };
        f.push((String::from_str("entry_points"), ep));
    }
    let r = Json::Object(f);
    proof {
        lemma_object_fview(r);
        if http {
            assert(fview(f@) =~= http_row(v@)->Object_0);
        } else {
            assert(fview(f@) =~= tcp_row(v@)->Object_0);
        }
    }
    r
}

/// Summarizes live Traefik routers read from its API: the objects among `items`, in order,
/// at most 400 HTTP (`http`) or 200 TCP routers.
pub fn live_rows_exec(items: &Vec<Json>, http: bool) -> (r: Vec<Json>)
    ensures
        jviews(r@) == live_rows(jviews(items@), http, if http { 400 } else { 200 }),
{
    let limit: usize = if http { 400 } else { 200 };
    let ghost all = jviews(items@);
    let mut rows: Vec<Json> = Vec::new();
    let mut i: usize = 0;
    assert(all.take(0) =~= Seq::<JsonV>::empty());
    while i < items.len()
        invariant
            i <= items@.len() == all.len(),
            all == jviews(items@),
            limit == if http { 400usize } else { 200usize },
            jviews(rows@) == live_rows(all.take(i as int), http, limit as nat),
        decreases items.len() - i,
    {
        assert(all.take(i + 1).drop_last() =~= all.take(i as int));
        assert(all.take(i + 1).last() == items@[i as int]@);
        if rows.len() < limit && is_object(&items[i]) {
            let row = live_row(&items[i], http);
            let ghost before = rows@;
            rows.push(row);
            assert(jviews(rows@) =~= jviews(before).push(rows@.last()@));
        }
        i = i + 1;
    }
    assert(all.take(items.len() as int) =~= all);
    rows
}

} // verus!

verus! {

/// The item `find_index` picks is inside the list.
proof fn lemma_find_index_bounds(items: Seq<JsonV>, ident: Seq<char>)
    ensures
        find_index(items, ident) matches Some(i) ==> 0 <= i < items.len(),
{
    lemma_find_index(items, trim(ident), items.len() as int);
}

/// Storing a route keeps route names unique, stores the route it answers, and creates a
/// route exactly when no stored route answers to the request's id (else its name). The
/// name the route is stored under must not have blanks at its ends: validation trims the
/// name before lowercasing it, and no trusted item states that lowercasing leaves the ends
/// alone, so that is asked here.
pub proof fn law_upsert_route_stores(
    routes: Seq<JsonV>,
    payload: JsonV,
    reserved: Seq<String>,
    deny: Seq<String>,
    fresh_id: Seq<char>,
    now: Seq<char>,
)
    requires
        route_names_unique(routes),
        upsert_route_verdict(routes, payload, reserved, deny, fresh_id, now) is Ok,
        ({
            let it = upsert_route_verdict(routes, payload, reserved, deny, fresh_id, now)->Ok_0.0;
            trim(str_or_empty(it, "name"@)) == str_or_empty(it, "name"@)
        }),
    ensures
        ({
            let (it, next, created) = upsert_route_verdict(routes, payload, reserved, deny, fresh_id, now)->Ok_0;
            &&& route_names_unique(next)
            &&& next.contains(it)
            &&& created <==> find_index(routes, request_ident(payload)) is None
        }),
{
    let cur = find_index(routes, request_ident(payload));
    lemma_find_index_bounds(routes, request_ident(payload));
    let existing = match cur {
        Some(i) => Some(routes[i]),
        None => None,
    };
    let f = route_verdict(payload, existing, reserved, deny, fresh_id, now)->Ok_0;
    let item = JsonV::Object(f);
    let dup = "route name already exists"@;
    law_upsert_keeps_names_unique(routes, cur, item, dup);
    let next = upsert_with(routes, cur, item, dup)->Ok_0.1;
    match cur {
        None => {
            assert(next[routes.len() as int] == item);
        },
        Some(idx) => {
            assert(next[idx] == item);
        },
    }
}

} // verus!
