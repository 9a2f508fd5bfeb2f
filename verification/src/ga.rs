//! The aggregate GA4 snapshot that weighs WAF findings against real visitor sessions: its
//! normalisation and the verdict per country. Reading the snapshot file stays with the
//! caller; ratios (floating point) are computed there too.
use vstd::prelude::*;

use crate::findings::{array_of, object_of};
use crate::json::{first_str, get, jarr, jget, jstr, jviews, str_or, Json, JsonV};
use crate::pattern::{re_is_match, regex_match};
use crate::text::{chars_of, has_prefix, lower, lower_chars, string_of, trim, trim_chars, upper, upper_chars};

verus! {

/// The GA4 property shown when the snapshot names none (or an invalid one).
pub const DEFAULT_PROPERTY: &'static str = "G-EWYYWP65FN";

/// Keys of a snapshot that may hold a credential.
pub const GA_SECRET_PATTERN: &'static str = "(?i)(token|key|password|secret|authorization|credential|api.?secret|measurement.?protocol)";

/// A GA4 measurement id.
pub const PROPERTY_PATTERN: &'static str = "^G-[A-Z0-9]+$";

/// A two-letter country code.
pub const COUNTRY_PATTERN: &'static str = "^[A-Z]{2}$";

/// A count read from JSON (`as_i64`, else `as_u64` as `i64`, else a float truncated): the
/// number when it is not negative, else `default`.
pub open spec fn as_int_spec(v: JsonV, default: int) -> int {
    let n = match v {
        JsonV::Int(i) => i,
        JsonV::UInt(u) => if u <= i64::MAX as int { u } else { -1 },
        JsonV::Real { whole, .. } => whole,
        _ => default,
    };
    if n >= 0 {
        n
    } else {
        default
    }
}

/// A non-negative count from a JSON value, `default` otherwise.
pub fn as_int(value: &Json, default: i64) -> (r: i64)
    ensures
        r as int == as_int_spec(value@, default as int),
{
    let n: i64 = match value {
        Json::Int(i) => *i,
        Json::UInt(u) => if *u <= 9223372036854775807u64 {
            *u as i64
        } else {
            -1
        },
        Json::Real { whole, .. } => *whole,
        _ => default,
    };
    if n >= 0 {
        n
    } else {
        default
    }
}

/// What the WAF findings of a country mean next to its real sessions.
pub open spec fn verdict_spec(lapi: int, sessions: int) -> Seq<char> {
    if lapi <= 0 {
        "clean-traffic"@
    } else if sessions <= 0 {
        "scanner-heavy"@
    } else if lapi >= 5 && sessions >= 20 {
        "user-impact-risk"@
    } else {
        "mixed"@
    }
}

/// The verdict for a country: no findings is clean traffic; findings without sessions are
/// scanners; many findings among many sessions put users at risk; anything else is mixed.
pub fn verdict(lapi_count: i64, ga_sessions: i64) -> (r: String)
    ensures
        r@ == verdict_spec(lapi_count as int, ga_sessions as int),
{
    if lapi_count <= 0 {
        String::from_str("clean-traffic")
    } else if ga_sessions <= 0 {
        String::from_str("scanner-heavy")
    } else if lapi_count >= 5 && ga_sessions >= 20 {
        String::from_str("user-impact-risk")
    } else {
        String::from_str("mixed")
    }
}

/// Hosts under the console's own mount are not site traffic.
pub open spec fn skip_host_spec(host: Seq<char>) -> bool {
    has_prefix(lower(trim(host)), "/waf"@)
}

/// Whether a snapshot host is the console itself.
pub fn skip_host(host: &str) -> (r: bool)
    ensures
        r == skip_host_spec(host@),
{
    let l = lower_chars(&trim_chars(&chars_of(host)));
    crate::text::starts_with_chars(&l, &chars_of("/waf"))
}

/// The host and sessions a snapshot host item names: a string is a host with no sessions;
/// an object gives `host` (else `hostname`) and `sessions`; anything else names nothing.
pub open spec fn host_item(item: JsonV) -> Option<(Seq<char>, int)> {
    match item {
        JsonV::Str(s) => Some((trim(s), 0)),
        JsonV::Object(_) => Some(
            (
                trim(first_str(item, "host"@, "hostname"@)),
                as_int_spec(
                    match jget(item, "sessions"@) {
                        Some(v) => v,
                        None => JsonV::Null,
                    },
                    0,
                ),
            ),
        ),
        _ => None,
    }
}

/// The normalised host rows of the snapshot items seen so far and their lowercased hosts.
pub open spec fn hosts_spec(items: Seq<JsonV>) -> (Seq<JsonV>, Seq<Seq<char>>)
    decreases items.len(),
{
    if items.len() == 0 {
        (Seq::empty(), Seq::empty())
    } else {
        let (rows, seen) = hosts_spec(items.drop_last());
        match host_item(items.last()) {
            None => (rows, seen),
            Some((h, n)) => if h.len() == 0 || skip_host_spec(h) || seen.contains(lower(h)) {
                (rows, seen)
            } else {
                (
                    rows.push(JsonV::Object(seq![("host"@, JsonV::Str(h)), ("sessions"@, JsonV::Int(n))])),
                    seen.push(lower(h)),
                )
            },
        }
    }
}

/// The session value of an object item (`null` where it has none).
fn sessions_of(item: &Json) -> (r: i64)
    ensures
        r as int == as_int_spec(
            match jget(item@, "sessions"@) {
                Some(v) => v,
                None => JsonV::Null,
            },
            0,
        ),
{
    match get(item, "sessions") {
        Some(v) => as_int(v, 0),
        None => as_int(&Json::Null, 0),
    }
}

/// A `{"host": h, "sessions": n}` row.
fn host_row(h: &Vec<char>, n: i64) -> (r: Json)
    ensures
        r@ == JsonV::Object(seq![("host"@, JsonV::Str(h@)), ("sessions"@, JsonV::Int(n as int))]),
{
    let mut f: Vec<(String, Json)> = Vec::new();
    f.push((String::from_str("host"), Json::Str(string_of(h))));
    f.push((String::from_str("sessions"), Json::Int(n)));
    let o = object_of(f);
    assert(crate::json::fview(f@) =~= seq![("host"@, JsonV::Str(h@)), ("sessions"@, JsonV::Int(n as int))]);
    o
}

/// The snapshot's hosts: each named once (case-insensitively), without empty hosts and the
/// console's own mount, with their sessions.
pub fn normalize_hosts(raw: Option<&Json>) -> (r: Vec<Json>)
    ensures
        jviews(r@) == match raw {
            Some(v) => match v@ {
                JsonV::Array(items) => hosts_spec(items).0,
                _ => Seq::<JsonV>::empty(),
            },
            None => Seq::<JsonV>::empty(),
        },
{
    let mut out: Vec<Json> = Vec::new();
    let list = match raw {
        Some(v) => match v {
            Json::Array(xs) => {
                proof {
                    crate::json::lemma_array_view(*v);
                }
                xs
            },
            _ => {
                assert(jviews(out@) =~= Seq::<JsonV>::empty());
                return out;
            },
        },
        None => {
            assert(jviews(out@) =~= Seq::<JsonV>::empty());
            return out;
        },
    };
    let ghost iv = jviews(list@);
    assert(iv =~= raw->Some_0@->Array_0);
    let mut seen: Vec<Vec<char>> = Vec::new();
    let mut i: usize = 0;
    assert(iv.take(0) =~= Seq::<JsonV>::empty());
    while i < list.len()
        invariant
            i <= list@.len() == iv.len(),
            iv == jviews(list@),
            jviews(out@) == hosts_spec(iv.take(i as int)).0,
            crate::correlate::vviews(seen@) == hosts_spec(iv.take(i as int)).1,
        decreases list.len() - i,
    {
        assert(iv.take(i + 1).drop_last() =~= iv.take(i as int));
        assert(iv.take(i + 1).last() == list@[i as int]@);
        let item = &list[i];
        let hn: Option<(Vec<char>, i64)> = match item {
            Json::Str(s) => Some((trim_chars(&chars_of(s.as_str())), 0)),
            Json::Object(_) => {
                let h = crate::json::first_str_of(item, "host", "hostname");
                Some((trim_chars(&chars_of(h.as_str())), sessions_of(item)))
            },
            _ => None,
        };
        match hn {
            Some((h, n)) => {
                let key = lower_chars(&h);
                let hs = string_of(&h);
                if h.len() != 0 && !skip_host(hs.as_str()) && !has_text(&seen, &key) {
                    let ghost o = out@;
                    out.push(host_row(&h, n));
                    assert(jviews(out@) =~= jviews(o).push(out@.last()@));
                    let ghost so = seen@;
                    seen.push(key);
                    assert(crate::correlate::vviews(seen@) =~= crate::correlate::vviews(so).push(lower(h@)));
                }
            },
            None => {},
        }
        i = i + 1;
    }
    assert(iv.take(list.len() as int) =~= iv);
    out
}

/// Whether `t` is among `v`.
fn has_text(v: &Vec<Vec<char>>, t: &Vec<char>) -> (r: bool)
    ensures
        r == crate::correlate::vviews(v@).contains(t@),
{
    let mut i: usize = 0;
    while i < v.len()
        invariant
            i <= v.len(),
            forall|k: int| 0 <= k < i ==> crate::correlate::vviews(v@)[k] != t@,
        decreases v.len() - i,
    {
        if crate::text::eq_chars(&v[i], t) {
            assert(crate::correlate::vviews(v@)[i as int] == t@);
            return true;
        }
        i = i + 1;
    }
    false
}

/// The normalised country rows of the snapshot items seen so far and their codes.
pub open spec fn countries_spec(items: Seq<JsonV>) -> (Seq<JsonV>, Seq<Seq<char>>)
    decreases items.len(),
{
    if items.len() == 0 {
        (Seq::empty(), Seq::empty())
    } else {
        let (rows, seen) = countries_spec(items.drop_last());
        let item = items.last();
        if !(item is Object) {
            (rows, seen)
        } else {
            let cn = upper(trim(first_str(item, "cn"@, "country"@)));
            if cn.len() == 0 || seen.contains(cn) || !regex_match(COUNTRY_PATTERN@, cn) {
                (rows, seen)
            } else {
                let n = as_int_spec(
                    match jget(item, "sessions"@) {
                        Some(v) => v,
                        None => JsonV::Null,
                    },
                    0,
                );
                (rows.push(JsonV::Object(seq![("cn"@, JsonV::Str(cn)), ("sessions"@, JsonV::Int(n))])), seen.push(cn))
            }
        }
    }
}

/// A `{"cn": c, "sessions": n}` row.
fn country_row(c: &Vec<char>, n: i64) -> (r: Json)
    ensures
        r@ == JsonV::Object(seq![("cn"@, JsonV::Str(c@)), ("sessions"@, JsonV::Int(n as int))]),
{
    let mut f: Vec<(String, Json)> = Vec::new();
    f.push((String::from_str("cn"), Json::Str(string_of(c))));
    f.push((String::from_str("sessions"), Json::Int(n)));
    let o = object_of(f);
    assert(crate::json::fview(f@) =~= seq![("cn"@, JsonV::Str(c@)), ("sessions"@, JsonV::Int(n as int))]);
    o
}

/// The snapshot's countries: each two-letter code (upper case) once, with its sessions.
pub fn normalize_countries(raw: Option<&Json>) -> (r: Vec<Json>)
    ensures
        jviews(r@) == match raw {
            Some(v) => match v@ {
                JsonV::Array(items) => countries_spec(items).0,
                _ => Seq::<JsonV>::empty(),
            },
            None => Seq::<JsonV>::empty(),
        },
{
    let mut out: Vec<Json> = Vec::new();
    let list = match raw {
        Some(v) => match v {
            Json::Array(xs) => {
                proof {
                    crate::json::lemma_array_view(*v);
                }
                xs
            },
            _ => {
                assert(jviews(out@) =~= Seq::<JsonV>::empty());
                return out;
            },
        },
        None => {
            assert(jviews(out@) =~= Seq::<JsonV>::empty());
            return out;
        },
    };
    let ghost iv = jviews(list@);
    assert(iv =~= raw->Some_0@->Array_0);
    let mut seen: Vec<Vec<char>> = Vec::new();
    let mut i: usize = 0;
    assert(iv.take(0) =~= Seq::<JsonV>::empty());
    while i < list.len()
        invariant
            i <= list@.len() == iv.len(),
            iv == jviews(list@),
            jviews(out@) == countries_spec(iv.take(i as int)).0,
            crate::correlate::vviews(seen@) == countries_spec(iv.take(i as int)).1,
        decreases list.len() - i,
    {
        assert(iv.take(i + 1).drop_last() =~= iv.take(i as int));
        assert(iv.take(i + 1).last() == list@[i as int]@);
        let item = &list[i];
        match item {
            Json::Object(_) => {
                let raw_cn = crate::json::first_str_of(item, "cn", "country");
                let cn = upper_chars(&trim_chars(&chars_of(raw_cn.as_str())));
                let cs = string_of(&cn);
                if cn.len() != 0 && !has_text(&seen, &cn) && re_is_match(COUNTRY_PATTERN, cs.as_str()) {
                    let n = sessions_of(item);
                    let ghost o = out@;
                    out.push(country_row(&cn, n));
                    assert(jviews(out@) =~= jviews(o).push(out@.last()@));
                    let ghost so = seen@;
                    seen.push(cn);
                    assert(crate::correlate::vviews(seen@) =~= crate::correlate::vviews(so).push(cs@));
                }
            },
            _ => {},
        }
        i = i + 1;
    }
    assert(iv.take(list.len() as int) =~= iv);
    out
}

} // verus!

verus! {

/// The note of a snapshot that is not configured.
pub const EMPTY_NOTE: &'static str = "Drop an aggregate GA4 snapshot at WAF_GA_SNAPSHOT_FILE. No Data API. No gtag on /waf.";

/// The note of a loaded snapshot.
pub const LOADED_NOTE: &'static str = "Aggregate GA4 sessions (hostname + country). No client_id. LAPI geo unchanged.";

/// The snapshot answered when none is configured or it cannot be read.
pub open spec fn empty_snapshot_spec() -> JsonV {
    JsonV::Object(
        seq![
            ("configured"@, JsonV::Bool(false)),
            ("property"@, JsonV::Str(DEFAULT_PROPERTY@)),
            ("window_days"@, JsonV::Int(0)),
            ("hosts"@, JsonV::Array(Seq::empty())),
            ("countries"@, JsonV::Array(Seq::empty())),
            ("note"@, JsonV::Str(EMPTY_NOTE@)),
        ],
    )
}

/// The snapshot answered when none is configured or it cannot be read.
pub fn empty_snapshot() -> (r: Json)
    ensures
        r@ == empty_snapshot_spec(),
{
    let none1: Vec<Json> = Vec::new();
    let none2: Vec<Json> = Vec::new();
    assert(jviews(none1@) =~= Seq::<JsonV>::empty());
    assert(jviews(none2@) =~= Seq::<JsonV>::empty());
    let mut f: Vec<(String, Json)> = Vec::new();
    f.push((String::from_str("configured"), Json::Bool(false)));
    f.push((String::from_str("property"), Json::Str(String::from_str(DEFAULT_PROPERTY))));
    f.push((String::from_str("window_days"), Json::Int(0)));
    f.push((String::from_str("hosts"), array_of(none1)));
    f.push((String::from_str("countries"), array_of(none2)));
    f.push((String::from_str("note"), Json::Str(String::from_str(EMPTY_NOTE))));
    let o = object_of(f);
    assert(crate::json::fview(f@) =~= empty_snapshot_spec()->Object_0);
    o
}

/// The items of the array under `k` (none when there is no array).
pub open spec fn items_under(d: JsonV, k: Seq<char>) -> Seq<JsonV> {
    match jget(d, k) {
        Some(JsonV::Array(xs)) => xs,
        _ => Seq::empty(),
    }
}

/// The value under `k`, or `null`.
pub open spec fn or_null(d: JsonV, k: Seq<char>) -> JsonV {
    match jget(d, k) {
        Some(v) => v,
        None => JsonV::Null,
    }
}

/// The GA4 property a snapshot names, when it is a valid measurement id.
pub open spec fn property_spec(d: JsonV) -> Seq<char> {
    let p0 = trim(str_or(d, "property"@, DEFAULT_PROPERTY@));
    let p1 = if p0.len() == 0 { DEFAULT_PROPERTY@ } else { p0 };
    if !regex_match(PROPERTY_PATTERN@, p1) {
        DEFAULT_PROPERTY@
    } else {
        p1
    }
}

/// The snapshot a parsed snapshot file gives: not an object gives the empty snapshot; else
/// its secret-looking keys are dropped, its property checked, its window (7 days when 0 or
/// absent) and its hosts and countries normalised.
pub open spec fn snapshot_spec(data: JsonV) -> JsonV {
    if !(data is Object) {
        empty_snapshot_spec()
    } else {
        let d = crate::correlate::scrub_by(GA_SECRET_PATTERN@, data);
        let w0 = as_int_spec(or_null(d, "window_days"@), 7);
        JsonV::Object(
            seq![
                ("configured"@, JsonV::Bool(true)),
                ("property"@, JsonV::Str(property_spec(d))),
                ("window_days"@, JsonV::Int(if w0 == 0 { 7 } else { w0 })),
                ("hosts"@, JsonV::Array(hosts_spec(items_under(d, "hosts"@)).0)),
                ("countries"@, JsonV::Array(countries_spec(items_under(d, "countries"@)).0)),
                ("note"@, JsonV::Str(LOADED_NOTE@)),
            ],
        )
    }
}

/// The GA4 property of a snapshot.
fn property_exec(d: &Json) -> (r: String)
    ensures
        r@ == property_spec(d@),
{
    let p0 = trim_chars(&crate::json::get_str_or(d, "property", DEFAULT_PROPERTY));
    let p1 = if p0.len() == 0 {
        String::from_str(DEFAULT_PROPERTY)
    } else {
        string_of(&p0)
    };
    if !re_is_match(PROPERTY_PATTERN, p1.as_str()) {
        String::from_str(DEFAULT_PROPERTY)
    } else {
        p1
    }
}

/// The snapshot of a parsed GA4 snapshot file.
pub fn snapshot_of(data: &Json) -> (r: Json)
    ensures
        r@ == snapshot_spec(data@),
{
    match data {
        Json::Object(_) => {},
        _ => {
            return empty_snapshot();
        },
    }
    let d = crate::correlate::scrub_ref(GA_SECRET_PATTERN, data);
    let property = property_exec(&d);
    let w0 = match get(&d, "window_days") {
        Some(v) => as_int(v, 7),
        None => as_int(&Json::Null, 7),
    };
    let hosts = normalize_hosts(get(&d, "hosts"));
    let countries = normalize_countries(get(&d, "countries"));
    proof {
        assert(jviews(hosts@) == hosts_spec(items_under(d@, "hosts"@)).0);
        assert(jviews(countries@) == countries_spec(items_under(d@, "countries"@)).0);
    }
    let mut f: Vec<(String, Json)> = Vec::new();
    f.push((String::from_str("configured"), Json::Bool(true)));
    f.push((String::from_str("property"), Json::Str(property)));
    f.push((String::from_str("window_days"), Json::Int(if w0 == 0 { 7 } else { w0 })));
    f.push((String::from_str("hosts"), array_of(hosts)));
    f.push((String::from_str("countries"), array_of(countries)));
    f.push((String::from_str("note"), Json::Str(String::from_str(LOADED_NOTE))));
    let o = object_of(f);
    assert(crate::json::fview(f@) =~= snapshot_spec(data@)->Object_0);
    o
}

/// Whether some item has sessions.
pub open spec fn any_sessions(items: Seq<JsonV>) -> bool {
    exists|i: int| 0 <= i < items.len() && (#[trigger] items[i]) is Object && as_int_spec(or_null(items[i], "sessions"@), 0) > 0
}

/// Whether some host or country of the snapshot has sessions.
pub open spec fn has_sessions_spec(snap: JsonV) -> bool {
    any_sessions(items_under(snap, "hosts"@)) || any_sessions(items_under(snap, "countries"@))
}

/// Whether some item of the array under `k` has sessions.
fn any_sessions_exec(snap: &Json, k: &str) -> (r: bool)
    ensures
        r == any_sessions(items_under(snap@, k@)),
{
    let v = get(snap, k);
    match v {
        Some(Json::Array(xs)) => {
            proof {
                crate::json::lemma_array_view(*v->Some_0);
            }
            let ghost iv = v->Some_0@->Array_0;
            let mut i: usize = 0;
            while i < xs.len()
                invariant
                    i <= xs@.len() == iv.len(),
                    iv == items_under(snap@, k@),
                    forall|m: int| 0 <= m < xs@.len() ==> #[trigger] iv[m] == xs@[m]@,
                    forall|m: int| 0 <= m < i ==> !((#[trigger] iv[m]) is Object && as_int_spec(or_null(iv[m], "sessions"@), 0) > 0),
                decreases xs.len() - i,
            {
                let item = &xs[i];
                let is_obj = match item {
                    Json::Object(_) => true,
                    _ => false,
                };
                if is_obj && sessions_of(item) > 0 {
                    assert(iv[i as int] is Object && as_int_spec(or_null(iv[i as int], "sessions"@), 0) > 0);
                    return true;
                }
                i = i + 1;
            }
            false
        },
        _ => false,
    }
}

/// Whether the snapshot has any sessions at all.
pub fn has_sessions(snap: &Json) -> (r: bool)
    ensures
        r == has_sessions_spec(snap@),
{
    any_sessions_exec(snap, "hosts") || any_sessions_exec(snap, "countries")
}

/// The value under `k`, or `d`.
pub open spec fn or_default(s: JsonV, k: Seq<char>, d: JsonV) -> JsonV {
    match jget(s, k) {
        Some(v) => v,
        None => d,
    }
}

/// What the console shows of a snapshot.
pub open spec fn public_spec(snap: JsonV) -> JsonV {
    let configured = crate::json::bool_or(snap, "configured"@, false);
    JsonV::Object(
        seq![
            ("configured"@, JsonV::Bool(configured)),
            ("contributes"@, JsonV::Bool(configured && has_sessions_spec(snap))),
            ("property"@, or_default(snap, "property"@, JsonV::Str(DEFAULT_PROPERTY@))),
            ("window_days"@, or_default(snap, "window_days"@, JsonV::Int(0))),
            ("hosts"@, or_default(snap, "hosts"@, JsonV::Array(Seq::empty()))),
            ("note"@, or_default(snap, "note"@, JsonV::Str(Seq::empty()))),
        ],
    )
}

/// The value under `k`, or `d`.
fn or_default_exec(s: &Json, k: &str, d: Json) -> (r: Json)
    ensures
        r@ == or_default(s@, k@, d@),
{
    match get(s, k) {
        Some(v) => crate::json::clone_json(v),
        None => d,
    }
}

/// What the console shows of a snapshot: whether it is configured and contributes
/// sessions, its property, window, hosts and note.
pub fn public(snap: &Json) -> (r: Json)
    ensures
        r@ == public_spec(snap@),
{
    let configured = crate::json::get_bool_or(snap, "configured", false);
    let contributes = configured && has_sessions(snap);
    let none: Vec<Json> = Vec::new();
    assert(jviews(none@) =~= Seq::<JsonV>::empty());
    let mut f: Vec<(String, Json)> = Vec::new();
    f.push((String::from_str("configured"), Json::Bool(configured)));
    f.push((String::from_str("contributes"), Json::Bool(contributes)));
    f.push((String::from_str("property"), or_default_exec(snap, "property", Json::Str(String::from_str(DEFAULT_PROPERTY)))));
    f.push((String::from_str("window_days"), or_default_exec(snap, "window_days", Json::Int(0))));
    f.push((String::from_str("hosts"), or_default_exec(snap, "hosts", array_of(none))));
    f.push((String::from_str("note"), or_default_exec(snap, "note", Json::Str(String::new()))));
    let o = object_of(f);
    assert(crate::json::fview(f@) =~= public_spec(snap@)->Object_0);
    o
}

} // verus!
