//! Correlation of CrowdSec alerts into findings: one finding per alert that classifies to an
//! OWASP category or ATT&CK technique, collapsed per (source IP, category), then counted per
//! category and technique by distinct source.
use vstd::prelude::*;

use crate::correlate::{attack_ids, classify, classify_spec, field_eq, is_noise_event, noise, vviews};
use crate::json::{
    first_str, first_str_of, get, get_str_or, get_str_or_empty, jarr, jget, jstr, str_or,
    str_or_empty, Json, JsonV,
};
use crate::text::{chars_of, lower, string_of, trim, trim_chars, upper, upper_chars};

verus! {

/// A finding: when and from where an alert came, its event name, OWASP code, ATT&CK
/// techniques, confidence and how many alerts it stands for.
pub struct Finding {
    pub when: Json,
    pub ip: String,
    pub cn: String,
    pub city: String,
    pub scenario: String,
    pub owasp: String,
    pub attack: Vec<String>,
    pub confidence: String,
    pub events: u64,
}

/// The mathematical form of a [`Finding`].
pub struct FindingV {
    pub when: JsonV,
    pub ip: Seq<char>,
    pub cn: Seq<char>,
    pub city: Seq<char>,
    pub scenario: Seq<char>,
    pub owasp: Seq<char>,
    pub attack: Seq<Seq<char>>,
    pub confidence: Seq<char>,
    pub events: int,
}

/// The characters of each string.
pub open spec fn sviews(v: Seq<String>) -> Seq<Seq<char>> {
    v.map_values(|s: String| s@)
}

impl View for Finding {
    type V = FindingV;

    open spec fn view(&self) -> FindingV {
        FindingV {
            when: self.when@,
            ip: self.ip@,
            cn: self.cn@,
            city: self.city@,
            scenario: self.scenario@,
            owasp: self.owasp@,
            attack: sviews(self.attack@),
            confidence: self.confidence@,
            events: self.events as int,
        }
    }
}

/// The string items of a JSON array, in order (other items skipped).
pub open spec fn strs_of(xs: Seq<JsonV>) -> Seq<Seq<char>>
    decreases xs.len(),
{
    if xs.len() == 0 {
        Seq::empty()
    } else {
        let prev = strs_of(xs.drop_last());
        match xs.last() {
            JsonV::Str(s) => prev.push(s),
            _ => prev,
        }
    }
}

/// The string items of a value that is an array (none otherwise).
pub open spec fn str_items(v: Option<JsonV>) -> Seq<Seq<char>> {
    match v {
        Some(JsonV::Array(xs)) => strs_of(xs),
        _ => Seq::empty(),
    }
}

/// The string items of a JSON value that is an array.
pub fn str_items_exec(v: Option<&Json>) -> (r: Vec<String>)
    ensures
        sviews(r@) == str_items(
            match v {
                Some(x) => Some(x@),
                None => None,
            },
        ),
{
    let mut out: Vec<String> = Vec::new();
    let arr: Option<&Json> = match v {
        Some(x) => match x {
            Json::Array(_) => Some(x),
            _ => None,
        },
        None => None,
    };
    match arr {
        Some(x) => {
            let xs = match x {
                Json::Array(xs) => xs,
                _ => {
                    return out;
                },
            };
            proof {
                crate::json::lemma_array_view(*x);
            }
            let ghost xv = x@->Array_0;
            let mut i: usize = 0;
            while i < xs.len()
                invariant
                    i <= xs@.len() == xv.len(),
                    forall|k: int| 0 <= k < xs@.len() ==> #[trigger] xv[k] == xs@[k]@,
                    sviews(out@) == strs_of(xv.take(i as int)),
                decreases xs.len() - i,
            {
                assert(xv.take(i + 1).drop_last() =~= xv.take(i as int));
                assert(xv.take(i + 1).last() == xv[i as int]);
                match &xs[i] {
                    Json::Str(s) => {
                        out.push(s.clone());
                        assert(sviews(out@) =~= sviews(out@.drop_last()).push(s@));
                    },
                    _ => {},
                }
                i = i + 1;
            }
            assert(xv.take(xs.len() as int) =~= xv);
        },
        None => {
            assert(sviews(out@) =~= Seq::<Seq<char>>::empty());
        },
    }
    out
}

/// The alert's `source`, or `null`.
pub open spec fn source_value(a: JsonV) -> JsonV {
    match jget(a, "source"@) {
        Some(v) => v,
        None => JsonV::Null,
    }
}

/// The `source` of the alert's first event, when that event is an object (`null` where it
/// has no `source`).
pub open spec fn event_source(a: JsonV) -> Option<JsonV> {
    match jarr(jget(a, "events"@)) {
        Some(es) => if es.len() > 0 && es[0] is Object {
            Some(
                match jget(es[0], "source"@) {
                    Some(v) => v,
                    None => JsonV::Null,
                },
            )
        } else {
            None
        },
        None => None,
    }
}

/// The event name of an alert: its `scenario` (else `reason`) when that is non-empty text,
/// else that of its first decision.
pub open spec fn alert_name_spec(a: JsonV) -> Seq<char> {
    let s = first_str(a, "scenario"@, "reason"@);
    if s.len() > 0 {
        s
    } else {
        match jarr(jget(a, "decisions"@)) {
            Some(ds) => if ds.len() > 0 && ds[0] is Object {
                first_str(ds[0], "scenario"@, "reason"@)
            } else {
                Seq::empty()
            },
            None => Seq::empty(),
        }
    }
}

/// The source address of an alert: `source.ip` (else `source.value`), else that of its
/// first event.
pub open spec fn alert_ip_spec(a: JsonV) -> Seq<char> {
    let ip = first_str(source_value(a), "ip"@, "value"@);
    if ip.len() > 0 {
        ip
    } else {
        match event_source(a) {
            Some(es) => first_str(es, "ip"@, "value"@),
            None => Seq::empty(),
        }
    }
}

/// Country (upper case) and city of an alert's source, each falling back to the first
/// event's source where empty.
pub open spec fn alert_geo_spec(a: JsonV) -> (Seq<char>, Seq<char>) {
    let src = source_value(a);
    let cn0 = first_str(src, "cn"@, "country"@);
    let city0 = str_or_empty(src, "city"@);
    let (cn1, city1) = if cn0.len() == 0 || city0.len() == 0 {
        match event_source(a) {
            Some(es) => (
                if cn0.len() == 0 { first_str(es, "cn"@, "country"@) } else { cn0 },
                if city0.len() == 0 { str_or_empty(es, "city"@) } else { city0 },
            ),
            None => (cn0, city0),
        }
    } else {
        (cn0, city0)
    };
    (upper(trim(cn1)), trim(city1))
}

/// When an alert happened: its `created_at`, else `start_at`, else `""`.
pub open spec fn when_spec(a: JsonV) -> JsonV {
    match jget(a, "created_at"@) {
        Some(v) => v,
        None => match jget(a, "start_at"@) {
            Some(v) => v,
            None => JsonV::Str(Seq::empty()),
        },
    }
}

/// The finding an alert gives: none for a non-object, a noise event, or an event that
/// classifies to neither an OWASP category nor a technique.
pub open spec fn finding_spec(a: JsonV) -> Option<FindingV> {
    if !(a is Object) {
        None
    } else {
        let name = alert_name_spec(a);
        if noise(Some(name)) {
            None
        } else {
            let h = classify_spec(Some(name), Some(a));
            let empty_attack = match jarr(jget(h, "attack"@)) {
                Some(x) => x.len() == 0,
                None => true,
            };
            if field_eq(h, "code"@, "none"@) && empty_attack {
                None
            } else {
                let g = alert_geo_spec(a);
                Some(
                    FindingV {
                        when: when_spec(a),
                        ip: alert_ip_spec(a),
                        cn: g.0,
                        city: g.1,
                        scenario: name,
                        owasp: str_or_empty(h, "code"@),
                        attack: str_items(jget(h, "attack"@)),
                        confidence: str_or(h, "confidence"@, "none"@),
                        events: 1,
                    },
                )
            }
        }
    }
}

/// The `source` of the first event of an alert, where that event is an object.
pub(crate) fn event_source_exec(a: &Json) -> (r: Option<Json>)
    ensures
        match r {
            Some(x) => event_source(a@) == Some(x@),
            None => event_source(a@) is None,
        },
{
    let ev = get(a, "events");
    match ev {
        Some(Json::Array(es)) => {
            proof {
                crate::json::lemma_array_view(*ev->Some_0);
            }
            if es.len() > 0 {
                match &es[0] {
                    Json::Object(_) => match get(&es[0], "source") {
                        Some(s) => Some(crate::json::clone_json(s)),
                        None => Some(Json::Null),
                    },
                    _ => None,
                }
            } else {
                None
            }
        },
        _ => None,
    }
}

/// The alert's `source`, or `null`.
pub(crate) fn source_exec(a: &Json) -> (r: Json)
    ensures
        r@ == source_value(a@),
{
    match get(a, "source") {
        Some(s) => crate::json::clone_json(s),
        None => Json::Null,
    }
}

/// The event name of an alert.
pub fn alert_name(a: &Json) -> (r: String)
    ensures
        r@ == alert_name_spec(a@),
{
    let s = first_str_of(a, "scenario", "reason");
    if chars_of(s.as_str()).len() > 0 {
        return s;
    }
    let dv = get(a, "decisions");
    match dv {
        Some(Json::Array(ds)) => {
            proof {
                crate::json::lemma_array_view(*dv->Some_0);
            }
            if ds.len() > 0 {
                match &ds[0] {
                    Json::Object(_) => first_str_of(&ds[0], "scenario", "reason"),
                    _ => String::new(),
                }
            } else {
                String::new()
            }
        },
        _ => String::new(),
    }
}

/// The source address of an alert.
pub fn alert_ip(a: &Json) -> (r: String)
    ensures
        r@ == alert_ip_spec(a@),
{
    let src = source_exec(a);
    let ip = first_str_of(&src, "ip", "value");
    if chars_of(ip.as_str()).len() > 0 {
        return ip;
    }
    match event_source_exec(a) {
        Some(es) => first_str_of(&es, "ip", "value"),
        None => String::new(),
    }
}

/// Country (upper case, trimmed) and city (trimmed) of an alert's source.
pub fn alert_geo(a: &Json) -> (r: (String, String))
    ensures
        r.0@ == alert_geo_spec(a@).0,
        r.1@ == alert_geo_spec(a@).1,
{
    let src = source_exec(a);
    let mut cn = first_str_of(&src, "cn", "country");
    let mut city = get_str_or_empty(&src, "city");
    let cn_empty = chars_of(cn.as_str()).len() == 0;
    let city_empty = chars_of(city.as_str()).len() == 0;
    if cn_empty || city_empty {
        match event_source_exec(a) {
            Some(es) => {
                if cn_empty {
                    cn = first_str_of(&es, "cn", "country");
                }
                if city_empty {
                    city = get_str_or_empty(&es, "city");
                }
            },
            None => {},
        }
    }
    let c = upper_chars(&trim_chars(&chars_of(cn.as_str())));
    let t = trim_chars(&chars_of(city.as_str()));
    (string_of(&c), string_of(&t))
}

/// When an alert happened.
fn when_exec(a: &Json) -> (r: Json)
    ensures
        r@ == when_spec(a@),
{
    match get(a, "created_at") {
        Some(v) => crate::json::clone_json(v),
        None => match get(a, "start_at") {
            Some(v) => crate::json::clone_json(v),
            None => Json::Str(String::new()),
        },
    }
}

/// The finding an alert gives, if any.
pub fn finding_of(a: &Json) -> (r: Option<Finding>)
    ensures
        match r {
            Some(f) => finding_spec(a@) == Some(f@),
            None => finding_spec(a@) is None,
        },
{
    match a {
        Json::Object(_) => {},
        _ => return None,
    }
    let name = alert_name(a);
    if is_noise_event(Some(name.as_str())) {
        return None;
    }
    let h = classify(Some(name.as_str()), Some(a));
    let attack_json = get(&h, "attack");
    let empty_attack = match attack_json {
        Some(Json::Array(x)) => {
            proof {
                crate::json::lemma_array_view(*attack_json->Some_0);
            }
            x.len() == 0
        },
        _ => true,
    };
    let code = get_str_or_empty(&h, "code");
    let none = chars_of("none");
    let is_none = match get(&h, "code") {
        Some(Json::Str(s)) => crate::text::eq_chars(&chars_of(s.as_str()), &none),
        _ => false,
    };
    if is_none && empty_attack {
        return None;
    }
    let (cn, city) = alert_geo(a);
    let attack = str_items_exec(attack_json);
    let conf = get_str_or(&h, "confidence", "none");
    Some(
        Finding {
            when: when_exec(a),
            ip: alert_ip(a),
            cn,
            city,
            scenario: name,
            owasp: code,
            attack,
            confidence: string_of(&conf),
            events: 1,
        },
    )
}

} // verus!

verus! {

/// The catalog techniques listed in `a` or `b`, in the order of `ids`.
pub open spec fn in_catalog_order(ids: Seq<Seq<char>>, a: Seq<Seq<char>>, b: Seq<Seq<char>>) -> Seq<Seq<char>>
    decreases ids.len(),
{
    if ids.len() == 0 {
        Seq::empty()
    } else {
        let prev = in_catalog_order(ids.drop_last(), a, b);
        if a.contains(ids.last()) || b.contains(ids.last()) {
            prev.push(ids.last())
        } else {
            prev
        }
    }
}

/// An out-of-band (log-only) event name.
pub open spec fn oob(s: Seq<char>) -> bool {
    crate::pattern::regex_match(crate::correlate::OOB_PATTERN@, s)
}

/// The rank of a confidence level: high 3, medium 2, low 1, anything else 0.
pub open spec fn rank(c: Seq<char>) -> int {
    if c == "high"@ {
        3
    } else if c == "medium"@ {
        2
    } else if c == "low"@ {
        1
    } else {
        0
    }
}

/// The text of a JSON string (empty for anything else).
pub open spec fn text_or_empty(v: JsonV) -> Seq<char> {
    match v {
        JsonV::Str(s) => s,
        _ => Seq::empty(),
    }
}

/// The first row a finding opens: one event, its techniques in catalog order.
pub open spec fn start_row(f: FindingV) -> FindingV {
    FindingV { events: 1, attack: in_catalog_order(attack_ids(), f.attack, Seq::empty()), ..f }
}

/// A row after one more finding of the same source and category: one more event, the union
/// of techniques in catalog order, the later time (as text), the higher confidence, and the
/// incoming name where the row's is out-of-band and the incoming one is not.
pub open spec fn merge_row(r: FindingV, f: FindingV) -> FindingV {
    FindingV {
        events: r.events + 1,
        attack: in_catalog_order(attack_ids(), r.attack, f.attack),
        when: if crate::text::str_lt(text_or_empty(r.when), text_or_empty(f.when)) {
            JsonV::Str(text_or_empty(f.when))
        } else {
            r.when
        },
        confidence: if rank(f.confidence) > rank(r.confidence) {
            f.confidence
        } else {
            r.confidence
        },
        scenario: if oob(r.scenario) && f.scenario.len() > 0 && !oob(f.scenario) {
            f.scenario
        } else {
            r.scenario
        },
        ..r
    }
}

/// The index of the first row with source `ip` and category `owasp`, or -1.
pub open spec fn row_index(rows: Seq<FindingV>, ip: Seq<char>, owasp: Seq<char>) -> int
    decreases rows.len(),
{
    if rows.len() == 0 {
        -1
    } else {
        let i = row_index(rows.drop_last(), ip, owasp);
        if i >= 0 {
            i
        } else if rows.last().ip == ip && rows.last().owasp == owasp {
            rows.len() - 1
        } else {
            -1
        }
    }
}

/// The rows after one more finding: merged into the row of its source and category, else
/// appended as a new row.
pub open spec fn absorb(rows: Seq<FindingV>, f: FindingV) -> Seq<FindingV> {
    let i = row_index(rows, f.ip, f.owasp);
    if i < 0 {
        rows.push(start_row(f))
    } else {
        rows.update(i, merge_row(rows[i], f))
    }
}

/// Findings collapsed to one row per (source IP, OWASP code), in order of first appearance.
pub open spec fn collapse_spec(fs: Seq<FindingV>) -> Seq<FindingV>
    decreases fs.len(),
{
    if fs.len() == 0 {
        Seq::empty()
    } else {
        absorb(collapse_spec(fs.drop_last()), fs.last())
    }
}

/// The first matching row is at `j` when none before it matches; with none at all the
/// index is -1.
pub proof fn lemma_row_index(rows: Seq<FindingV>, ip: Seq<char>, owasp: Seq<char>, j: int)
    requires
        0 <= j <= rows.len(),
        forall|k: int| 0 <= k < j ==> !(#[trigger] rows[k].ip == ip && rows[k].owasp == owasp),
        j < rows.len() ==> rows[j].ip == ip && rows[j].owasp == owasp,
    ensures
        row_index(rows, ip, owasp) == if j < rows.len() { j } else { -1 },
    decreases rows.len(),
{
    if rows.len() == 0 {
    } else if j == rows.len() {
        lemma_row_index(rows.drop_last(), ip, owasp, j - 1);
    } else if j == rows.len() - 1 {
        lemma_row_index(rows.drop_last(), ip, owasp, j);
    } else {
        lemma_row_index(rows.drop_last(), ip, owasp, j);
    }
}

/// The row index is -1 or a position of `rows`.
pub proof fn lemma_row_index_range(rows: Seq<FindingV>, ip: Seq<char>, owasp: Seq<char>)
    ensures
        -1 <= row_index(rows, ip, owasp) < rows.len(),
    decreases rows.len(),
{
    if rows.len() > 0 {
        lemma_row_index_range(rows.drop_last(), ip, owasp);
    }
}

/// A copy of a list of strings.
pub fn clone_strings(v: &Vec<String>) -> (r: Vec<String>)
    ensures
        sviews(r@) == sviews(v@),
{
    let mut out: Vec<String> = Vec::new();
    let mut i: usize = 0;
    while i < v.len()
        invariant
            i <= v.len(),
            sviews(out@) == sviews(v@).take(i as int),
        decreases v.len() - i,
    {
        let c = v[i].clone();
        assert(c@ == sviews(v@)[i as int]);
        let ghost o = out@;
        out.push(c);
        assert(sviews(out@) =~= sviews(o).push(c@));
        assert(sviews(out@) =~= sviews(v@).take(i + 1));
        i = i + 1;
    }
    assert(sviews(v@).take(v.len() as int) =~= sviews(v@));
    out
}

/// A copy of a finding.
pub fn clone_finding(f: &Finding) -> (r: Finding)
    ensures
        r@ == f@,
{
    Finding {
        when: crate::json::clone_json(&f.when),
        ip: f.ip.clone(),
        cn: f.cn.clone(),
        city: f.city.clone(),
        scenario: f.scenario.clone(),
        owasp: f.owasp.clone(),
        attack: clone_strings(&f.attack),
        confidence: f.confidence.clone(),
        events: f.events,
    }
}

/// Whether `t` is one of the strings of `v`.
pub fn has_string(v: &Vec<String>, t: &Vec<char>) -> (r: bool)
    ensures
        r == sviews(v@).contains(t@),
{
    let mut i: usize = 0;
    while i < v.len()
        invariant
            i <= v.len(),
            forall|k: int| 0 <= k < i ==> sviews(v@)[k] != t@,
        decreases v.len() - i,
    {
        if crate::text::eq_chars(&chars_of(v[i].as_str()), t) {
            assert(sviews(v@)[i as int] == t@);
            return true;
        }
        i = i + 1;
    }
    false
}

/// The catalog techniques listed in `a` or `b`, in catalog order.
pub fn catalog_order(a: &Vec<String>, b: &Vec<String>) -> (r: Vec<String>)
    ensures
        sviews(r@) == in_catalog_order(attack_ids(), sviews(a@), sviews(b@)),
{
    let rows = crate::correlate::attack_rows();
    let ghost ids = attack_ids();
    let mut out: Vec<String> = Vec::new();
    let mut i: usize = 0;
    assert(ids.take(0) =~= Seq::<Seq<char>>::empty());
    while i < rows.len()
        invariant
            i <= rows@.len() == ids.len(),
            ids == attack_ids(),
            forall|k: int| 0 <= k < rows@.len() ==> (#[trigger] rows@[k]).0@ == ids[k],
            sviews(out@) == in_catalog_order(ids.take(i as int), sviews(a@), sviews(b@)),
        decreases rows.len() - i,
    {
        let t = chars_of(rows[i].0);
        assert(ids.take(i + 1).drop_last() =~= ids.take(i as int));
        assert(ids.take(i + 1).last() == ids[i as int]);
        if has_string(a, &t) || has_string(b, &t) {
            out.push(string_of(&t));
            assert(sviews(out@) =~= sviews(out@.drop_last()).push(t@));
        }
        i = i + 1;
    }
    assert(ids.take(rows.len() as int) =~= ids);
    out
}

/// The rank of a confidence level.
fn rank_exec(c: &str) -> (r: u8)
    ensures
        r as int == rank(c@),
{
    let v = chars_of(c);
    if crate::text::eq_chars(&v, &chars_of("high")) {
        3
    } else if crate::text::eq_chars(&v, &chars_of("medium")) {
        2
    } else if crate::text::eq_chars(&v, &chars_of("low")) {
        1
    } else {
        0
    }
}

/// The text of a JSON string.
fn text_or_empty_exec(j: &Json) -> (r: Vec<char>)
    ensures
        r@ == text_or_empty(j@),
{
    match j {
        Json::Str(s) => chars_of(s.as_str()),
        _ => Vec::new(),
    }
}

/// The row that opens for a finding.
pub fn start_row_exec(f: &Finding) -> (r: Finding)
    ensures
        r@ == start_row(f@),
{
    let empty: Vec<String> = Vec::new();
    assert(sviews(empty@) =~= Seq::<Seq<char>>::empty());
    let mut r = clone_finding(f);
    r.events = 1;
    r.attack = catalog_order(&f.attack, &empty);
    r
}

/// A row merged with one more finding of its source and category.
pub fn merge_row_exec(r: &Finding, f: &Finding) -> (m: Finding)
    requires
        r.events < u64::MAX,
    ensures
        m@ == merge_row(r@, f@),
{
    let mut m = clone_finding(r);
    m.events = r.events + 1;
    m.attack = catalog_order(&r.attack, &f.attack);
    let cur = text_or_empty_exec(&r.when);
    let inc = text_or_empty_exec(&f.when);
    if crate::text::str_lt_exec(&cur, &inc) {
        m.when = Json::Str(string_of(&inc));
    }
    if rank_exec(f.confidence.as_str()) > rank_exec(r.confidence.as_str()) {
        m.confidence = f.confidence.clone();
    }
    let oob_cur = crate::pattern::re_is_match(crate::correlate::OOB_PATTERN, r.scenario.as_str());
    let oob_inc = crate::pattern::re_is_match(crate::correlate::OOB_PATTERN, f.scenario.as_str());
    if oob_cur && chars_of(f.scenario.as_str()).len() > 0 && !oob_inc {
        m.scenario = f.scenario.clone();
    }
    m
}

/// The position of the first row with source `ip` and category `owasp`, or the number of
/// rows when there is none.
fn find_row(rows: &Vec<Finding>, ip: &str, owasp: &str) -> (j: usize)
    ensures
        j <= rows@.len(),
        forall|k: int| 0 <= k < j ==> !(#[trigger] fviews(rows@)[k].ip == ip@ && fviews(rows@)[k].owasp == owasp@),
        j < rows@.len() ==> fviews(rows@)[j as int].ip == ip@ && fviews(rows@)[j as int].owasp == owasp@,
{
    let fip = chars_of(ip);
    let fow = chars_of(owasp);
    let mut j: usize = 0;
    while j < rows.len()
        invariant
            j <= rows@.len(),
            fip@ == ip@,
            fow@ == owasp@,
            forall|k: int| 0 <= k < j ==> !(#[trigger] fviews(rows@)[k].ip == ip@ && fviews(rows@)[k].owasp == owasp@),
        decreases rows.len() - j,
    {
        if crate::text::eq_chars(&chars_of(rows[j].ip.as_str()), &fip) && crate::text::eq_chars(
            &chars_of(rows[j].owasp.as_str()),
            &fow,
        ) {
            return j;
        }
        j = j + 1;
    }
    j
}

/// The views of a list of findings.
pub open spec fn fviews(v: Seq<Finding>) -> Seq<FindingV> {
    v.map_values(|f: Finding| f@)
}

/// Collapses findings to one row per (source IP, OWASP code), in order of first appearance:
/// each row counts its alerts, unites their techniques (catalog order), keeps the latest
/// time, the highest confidence, and a non-out-of-band name over an out-of-band one.
pub fn collapse_findings(findings: Vec<Finding>) -> (r: Vec<Finding>)
    ensures
        fviews(r@) == collapse_spec(fviews(findings@)),
{
    let ghost fs = fviews(findings@);
    let mut rows: Vec<Finding> = Vec::new();
    let mut i: usize = 0;
    assert(fs.take(0) =~= Seq::<FindingV>::empty());
    while i < findings.len()
        invariant
            i <= findings@.len() == fs.len(),
            fs == fviews(findings@),
            fviews(rows@) == collapse_spec(fs.take(i as int)),
            forall|k: int| 0 <= k < rows@.len() ==> (#[trigger] rows@[k]).events <= i,
        decreases findings.len() - i,
    {
        let f = &findings[i];
        assert(fs.take(i + 1).drop_last() =~= fs.take(i as int));
        assert(fs.take(i + 1).last() == f@);
        let ghost before = fviews(rows@);
        let j = find_row(&rows, f.ip.as_str(), f.owasp.as_str());
        proof {
            lemma_row_index(before, f.ip@, f.owasp@, j as int);
        }
        if j < rows.len() {
            let merged = merge_row_exec(&rows[j], f);
            rows.set(j, merged);
            assert(fviews(rows@) =~= before.update(j as int, merge_row(before[j as int], f@)));
        } else {
            rows.push(start_row_exec(f));
            assert(fviews(rows@) =~= before.push(start_row(f@)));
        }
        i = i + 1;
    }
    assert(fs.take(findings.len() as int) =~= fs);
    rows
}

} // verus!

verus! {

/// What a finding is counted by: its trimmed source address, or, without one, its name and
/// time.
pub open spec fn token_spec(f: FindingV) -> Seq<char> {
    let ip = trim(f.ip);
    if ip.len() == 0 {
        "finding:"@ + f.scenario + "|"@ + text_or_empty(f.when)
    } else {
        ip
    }
}

/// The items of `s`, each once, in order of first appearance.
pub open spec fn distinct(s: Seq<Seq<char>>) -> Seq<Seq<char>>
    decreases s.len(),
{
    if s.len() == 0 {
        Seq::empty()
    } else {
        let p = distinct(s.drop_last());
        if p.contains(s.last()) {
            p
        } else {
            p.push(s.last())
        }
    }
}

/// The tokens of the findings of OWASP category `code`.
pub open spec fn code_tokens(fs: Seq<FindingV>, code: Seq<char>) -> Seq<Seq<char>>
    decreases fs.len(),
{
    if fs.len() == 0 {
        Seq::empty()
    } else {
        let p = code_tokens(fs.drop_last(), code);
        if fs.last().owasp == code {
            p.push(token_spec(fs.last()))
        } else {
            p
        }
    }
}

/// The tokens of the findings that name technique `tid`.
pub open spec fn technique_tokens(fs: Seq<FindingV>, tid: Seq<char>) -> Seq<Seq<char>>
    decreases fs.len(),
{
    if fs.len() == 0 {
        Seq::empty()
    } else {
        let p = technique_tokens(fs.drop_last(), tid);
        if fs.last().attack.contains(tid) {
            p.push(token_spec(fs.last()))
        } else {
            p
        }
    }
}

/// How many distinct sources have findings of OWASP category `code`.
pub open spec fn code_count(fs: Seq<FindingV>, code: Seq<char>) -> int {
    distinct(code_tokens(fs, code)).len() as int
}

/// How many distinct sources have findings naming technique `tid`.
pub open spec fn technique_count(fs: Seq<FindingV>, tid: Seq<char>) -> int {
    distinct(technique_tokens(fs, tid)).len() as int
}

/// The token a finding is counted by.
pub fn token_exec(f: &Finding) -> (r: Vec<char>)
    ensures
        r@ == token_spec(f@),
{
    let ip = trim_chars(&chars_of(f.ip.as_str()));
    if ip.len() == 0 {
        let mut t = chars_of("finding:");
        crate::text::append_str(&mut t, f.scenario.as_str());
        crate::text::append_str(&mut t, "|");
        let w = text_or_empty_exec(&f.when);
        crate::text::append_chars(&mut t, &w);
        t
    } else {
        ip
    }
}

/// Whether `t` is among `v`.
pub fn has_chars(v: &Vec<Vec<char>>, t: &Vec<char>) -> (r: bool)
    ensures
        r == vviews(v@).contains(t@),
{
    let mut i: usize = 0;
    while i < v.len()
        invariant
            i <= v.len(),
            forall|k: int| 0 <= k < i ==> vviews(v@)[k] != t@,
        decreases v.len() - i,
    {
        if crate::text::eq_chars(&v[i], t) {
            assert(vviews(v@)[i as int] == t@);
            return true;
        }
        i = i + 1;
    }
    false
}

/// The number of distinct sources among the findings of `code` (when `by_code`) or naming
/// technique `key` (otherwise).
pub fn distinct_sources(fs: &Vec<Finding>, by_code: bool, key: &Vec<char>) -> (n: usize)
    ensures
        n as int == if by_code { code_count(fviews(fs@), key@) } else { technique_count(fviews(fs@), key@) },
        n <= fs@.len(),
{
    let ghost all = fviews(fs@);
    let ghost toks = if by_code { code_tokens(all, key@) } else { technique_tokens(all, key@) };
    let mut seen: Vec<Vec<char>> = Vec::new();
    let mut i: usize = 0;
    assert(all.take(0) =~= Seq::<FindingV>::empty());
    while i < fs.len()
        invariant
            i <= fs@.len() == all.len(),
            all == fviews(fs@),
            vviews(seen@) == distinct(
                if by_code { code_tokens(all.take(i as int), key@) } else { technique_tokens(all.take(i as int), key@) },
            ),
            seen@.len() <= i,
        decreases fs.len() - i,
    {
        let f = &fs[i];
        assert(all.take(i + 1).drop_last() =~= all.take(i as int));
        assert(all.take(i + 1).last() == f@);
        let hit = if by_code {
            crate::text::eq_chars(&chars_of(f.owasp.as_str()), key)
        } else {
            has_string(&f.attack, key)
        };
        let ghost prev = if by_code { code_tokens(all.take(i as int), key@) } else { technique_tokens(all.take(i as int), key@) };
        let ghost next = if by_code { code_tokens(all.take(i + 1), key@) } else { technique_tokens(all.take(i + 1), key@) };
        if hit {
            let t = token_exec(f);
            assert(next == prev.push(t@));
            assert(prev.push(t@).drop_last() =~= prev);
            if !has_chars(&seen, &t) {
                let ghost o = seen@;
                seen.push(t);
                assert(vviews(seen@) =~= vviews(o).push(t@));
            }
        } else {
            assert(next == prev);
        }
        i = i + 1;
    }
    assert(all.take(fs.len() as int) =~= all);
    seen.len()
}

} // verus!

verus! {

/// `x` placed into the ascending sequence `s`, before the first item not below it.
pub open spec fn insert_sorted(s: Seq<Seq<char>>, x: Seq<char>) -> Seq<Seq<char>>
    decreases s.len(),
{
    if s.len() == 0 {
        seq![x]
    } else if !crate::text::str_lt(s[0], x) {
        seq![x] + s
    } else {
        seq![s[0]] + insert_sorted(s.drop_first(), x)
    }
}

/// `s` in ascending order (insertion sort).
pub open spec fn sort_spec(s: Seq<Seq<char>>) -> Seq<Seq<char>>
    decreases s.len(),
{
    if s.len() == 0 {
        Seq::empty()
    } else {
        insert_sorted(sort_spec(s.drop_last()), s.last())
    }
}

/// Inserting before the first item not below `x` is splitting there.
pub proof fn lemma_insert_at(s: Seq<Seq<char>>, x: Seq<char>, p: int)
    requires
        0 <= p <= s.len(),
        forall|k: int| 0 <= k < p ==> crate::text::str_lt(#[trigger] s[k], x),
        p < s.len() ==> !crate::text::str_lt(s[p], x),
    ensures
        insert_sorted(s, x) == s.take(p) + seq![x] + s.skip(p),
    decreases s.len(),
{
    if s.len() == 0 {
        assert(s.take(p) + seq![x] + s.skip(p) =~= seq![x]);
    } else if p == 0 {
        assert(s.take(0) + seq![x] + s.skip(0) =~= seq![x] + s);
    } else {
        let t = s.drop_first();
        assert forall|k: int| 0 <= k < p - 1 implies crate::text::str_lt(#[trigger] t[k], x) by {
            assert(t[k] == s[k + 1]);
        }
        lemma_insert_at(t, x, p - 1);
        assert(seq![s[0]] + (t.take(p - 1) + seq![x] + t.skip(p - 1)) =~= s.take(p) + seq![x] + s.skip(p));
    }
}

/// Sorts character sequences ascending (insertion sort).
pub fn sort_texts(v: Vec<Vec<char>>) -> (r: Vec<Vec<char>>)
    ensures
        vviews(r@) == sort_spec(vviews(v@)),
{
    let ghost all = vviews(v@);
    let mut out: Vec<Vec<char>> = Vec::new();
    let mut i: usize = 0;
    assert(all.take(0) =~= Seq::<Seq<char>>::empty());
    while i < v.len()
        invariant
            i <= v@.len() == all.len(),
            all == vviews(v@),
            vviews(out@) == sort_spec(all.take(i as int)),
        decreases v.len() - i,
    {
        let x = v[i].clone();
        assert(x@ == all[i as int]);
        assert(all.take(i + 1).drop_last() =~= all.take(i as int));
        assert(all.take(i + 1).last() == x@);
        let mut p: usize = 0;
        while p < out.len() && crate::text::str_lt_exec(&out[p], &x)
            invariant
                p <= out@.len(),
                forall|k: int| 0 <= k < p ==> crate::text::str_lt(#[trigger] vviews(out@)[k], x@),
            decreases out.len() - p,
        {
            p = p + 1;
        }
        proof {
            lemma_insert_at(vviews(out@), x@, p as int);
        }
        let ghost o = vviews(out@);
        out.insert(p, x);
        assert(vviews(out@) =~= o.take(p as int) + seq![x@] + o.skip(p as int));
        i = i + 1;
    }
    assert(all.take(v.len() as int) =~= all);
    out
}

/// The OWASP codes (not empty, not `none`) of the findings naming technique `tid`.
pub open spec fn technique_codes(fs: Seq<FindingV>, tid: Seq<char>) -> Seq<Seq<char>>
    decreases fs.len(),
{
    if fs.len() == 0 {
        Seq::empty()
    } else {
        let p = technique_codes(fs.drop_last(), tid);
        let f = fs.last();
        if f.attack.contains(tid) && f.owasp.len() > 0 && f.owasp != "none"@ {
            p.push(f.owasp)
        } else {
            p
        }
    }
}

/// The distinct OWASP codes of the findings naming technique `tid`, ascending.
pub fn technique_owasp(fs: &Vec<Finding>, tid: &Vec<char>) -> (r: Vec<Vec<char>>)
    ensures
        vviews(r@) == sort_spec(distinct(technique_codes(fviews(fs@), tid@))),
{
    let ghost all = fviews(fs@);
    let none = chars_of("none");
    let mut seen: Vec<Vec<char>> = Vec::new();
    let mut i: usize = 0;
    assert(all.take(0) =~= Seq::<FindingV>::empty());
    while i < fs.len()
        invariant
            i <= fs@.len() == all.len(),
            all == fviews(fs@),
            none@ == "none"@,
            vviews(seen@) == distinct(technique_codes(all.take(i as int), tid@)),
        decreases fs.len() - i,
    {
        let f = &fs[i];
        assert(all.take(i + 1).drop_last() =~= all.take(i as int));
        assert(all.take(i + 1).last() == f@);
        let code = chars_of(f.owasp.as_str());
        let ghost prev = technique_codes(all.take(i as int), tid@);
        if has_string(&f.attack, tid) && code.len() > 0 && !crate::text::eq_chars(&code, &none) {
            assert(technique_codes(all.take(i + 1), tid@) == prev.push(code@));
            assert(prev.push(code@).drop_last() =~= prev);
            if !has_chars(&seen, &code) {
                let ghost o = seen@;
                seen.push(code);
                assert(vviews(seen@) =~= vviews(o).push(code@));
            }
        } else {
            assert(technique_codes(all.take(i + 1), tid@) == prev);
        }
        i = i + 1;
    }
    assert(all.take(fs.len() as int) =~= all);
    sort_texts(seen)
}

} // verus!

verus! {

/// A JSON object from its entries.
pub fn object_of(fields: Vec<(String, Json)>) -> (r: Json)
    ensures
        r@ == JsonV::Object(crate::json::fview(fields@)),
{
    let r = Json::Object(fields);
    proof {
        crate::json::lemma_object_fview(r);
    }
    r
}

/// A JSON array from its items.
pub fn array_of(items: Vec<Json>) -> (r: Json)
    ensures
        r@ == JsonV::Array(crate::json::jviews(items@)),
{
    let r = Json::Array(items);
    proof {
        crate::json::lemma_array_view(r);
        assert(r@->Array_0 =~= crate::json::jviews(items@));
    }
    r
}

/// A JSON array of the given strings.
pub fn strings_json(v: &Vec<String>) -> (r: Json)
    ensures
        r@ == crate::correlate::str_array(sviews(v@)),
{
    let mut out: Vec<Json> = Vec::new();
    let mut i: usize = 0;
    while i < v.len()
        invariant
            i <= v.len(),
            out@.len() == i,
            forall|k: int| 0 <= k < i ==> #[trigger] out@[k]@ == crate::correlate::js(v@[k]@),
        decreases v.len() - i,
    {
        out.push(Json::Str(v[i].clone()));
        i = i + 1;
    }
    let r = array_of(out);
    assert(crate::json::jviews(out@) =~= sviews(v@).map_values(|t: Seq<char>| crate::correlate::js(t)));
    r
}

/// The JSON object of a finding row.
pub open spec fn finding_json(f: FindingV) -> JsonV {
    JsonV::Object(
        seq![
            ("when"@, f.when),
            ("ip"@, JsonV::Str(f.ip)),
            ("cn"@, JsonV::Str(f.cn)),
            ("city"@, JsonV::Str(f.city)),
            ("scenario"@, JsonV::Str(f.scenario)),
            ("owasp"@, JsonV::Str(f.owasp)),
            ("attack"@, crate::correlate::str_array(f.attack)),
            ("confidence"@, JsonV::Str(f.confidence)),
            ("events"@, JsonV::UInt(f.events)),
        ],
    )
}

/// The JSON object of a finding row.
pub fn finding_to_json(f: &Finding) -> (r: Json)
    ensures
        r@ == finding_json(f@),
{
    let mut fields: Vec<(String, Json)> = Vec::new();
    fields.push((String::from_str("when"), crate::json::clone_json(&f.when)));
    fields.push((String::from_str("ip"), Json::Str(f.ip.clone())));
    fields.push((String::from_str("cn"), Json::Str(f.cn.clone())));
    fields.push((String::from_str("city"), Json::Str(f.city.clone())));
    fields.push((String::from_str("scenario"), Json::Str(f.scenario.clone())));
    fields.push((String::from_str("owasp"), Json::Str(f.owasp.clone())));
    fields.push((String::from_str("attack"), strings_json(&f.attack)));
    fields.push((String::from_str("confidence"), Json::Str(f.confidence.clone())));
    fields.push((String::from_str("events"), Json::UInt(f.events)));
    let r = object_of(fields);
    assert(crate::json::fview(fields@) =~= finding_json(f@)->Object_0);
    r
}

/// The JSON objects of finding rows.
pub fn findings_json(fs: &Vec<Finding>) -> (r: Vec<Json>)
    ensures
        crate::json::jviews(r@) == fviews(fs@).map_values(|f: FindingV| finding_json(f)),
{
    let mut out: Vec<Json> = Vec::new();
    let mut i: usize = 0;
    while i < fs.len()
        invariant
            i <= fs.len(),
            out@.len() == i,
            forall|k: int| 0 <= k < i ==> #[trigger] out@[k]@ == finding_json(fs@[k]@),
        decreases fs.len() - i,
    {
        out.push(finding_to_json(&fs[i]));
        i = i + 1;
    }
    assert(crate::json::jviews(out@) =~= fviews(fs@).map_values(|f: FindingV| finding_json(f)));
    out
}

/// The findings of a list of alerts, in alert order.
pub open spec fn alert_findings(alerts: Seq<JsonV>) -> Seq<FindingV>
    decreases alerts.len(),
{
    if alerts.len() == 0 {
        Seq::empty()
    } else {
        let p = alert_findings(alerts.drop_last());
        match finding_spec(alerts.last()) {
            Some(f) => p.push(f),
            None => p,
        }
    }
}

/// Collapsing never adds rows; the findings of alerts are at most the alerts.
pub proof fn lemma_collapse_len(fs: Seq<FindingV>)
    ensures
        collapse_spec(fs).len() <= fs.len(),
    decreases fs.len(),
{
    if fs.len() > 0 {
        lemma_collapse_len(fs.drop_last());
        let prev = collapse_spec(fs.drop_last());
        assert(collapse_spec(fs) == absorb(prev, fs.last()));
        lemma_row_index_range(prev, fs.last().ip, fs.last().owasp);
        assert(absorb(prev, fs.last()).len() <= prev.len() + 1);
    }
}

/// The findings of alerts are at most the alerts.
pub proof fn lemma_findings_len(a: Seq<JsonV>)
    ensures
        alert_findings(a).len() <= a.len(),
    decreases a.len(),
{
    if a.len() > 0 {
        lemma_findings_len(a.drop_last());
    }
}

/// The findings of a list of alerts.
pub fn findings_of(alerts: &Vec<Json>) -> (r: Vec<Finding>)
    ensures
        fviews(r@) == alert_findings(crate::json::jviews(alerts@)),
{
    let ghost all = crate::json::jviews(alerts@);
    let mut out: Vec<Finding> = Vec::new();
    let mut i: usize = 0;
    assert(all.take(0) =~= Seq::<JsonV>::empty());
    while i < alerts.len()
        invariant
            i <= alerts@.len() == all.len(),
            all == crate::json::jviews(alerts@),
            fviews(out@) == alert_findings(all.take(i as int)),
        decreases alerts.len() - i,
    {
        assert(all.take(i + 1).drop_last() =~= all.take(i as int));
        assert(all.take(i + 1).last() == alerts@[i as int]@);
        match finding_of(&alerts[i]) {
            Some(f) => {
                let ghost o = out@;
                out.push(f);
                assert(fviews(out@) =~= fviews(o).push(f@));
            },
            None => {},
        }
        i = i + 1;
    }
    assert(all.take(alerts.len() as int) =~= all);
    out
}

/// The hub rules whose classification is OWASP category `code`.
pub open spec fn hub_for(rules: Seq<Seq<char>>, code: Seq<char>) -> Seq<Seq<char>>
    decreases rules.len(),
{
    if rules.len() == 0 {
        Seq::empty()
    } else {
        let p = hub_for(rules.drop_last(), code);
        if field_eq(classify_spec(Some(rules.last()), None), "code"@, code) {
            p.push(rules.last())
        } else {
            p
        }
    }
}

/// The hub rules classified as OWASP category `code`.
pub fn hub_rules_for(rules: &Vec<String>, code: &str) -> (r: Vec<String>)
    ensures
        sviews(r@) == hub_for(sviews(rules@), code@),
{
    let ghost all = sviews(rules@);
    let mut out: Vec<String> = Vec::new();
    let mut i: usize = 0;
    assert(all.take(0) =~= Seq::<Seq<char>>::empty());
    while i < rules.len()
        invariant
            i <= rules@.len() == all.len(),
            all == sviews(rules@),
            sviews(out@) == hub_for(all.take(i as int), code@),
        decreases rules.len() - i,
    {
        assert(all.take(i + 1).drop_last() =~= all.take(i as int));
        assert(all.take(i + 1).last() == rules@[i as int]@);
        let h = classify(Some(rules[i].as_str()), None);
        let is_code = match get(&h, "code") {
            Some(Json::Str(s)) => crate::text::eq_chars(&chars_of(s.as_str()), &chars_of(code)),
            _ => false,
        };
        if is_code {
            let ghost o = out@;
            out.push(rules[i].clone());
            assert(sviews(out@) =~= sviews(o).push(rules@[i as int]@));
        }
        i = i + 1;
    }
    assert(all.take(rules.len() as int) =~= all);
    out
}

/// The OWASP category entry of the correlation: the category, how many distinct sources
/// have findings in it, and the hub rules that map to it.
pub open spec fn owasp_entry(
    row: (Seq<char>, Seq<char>, Seq<char>, Seq<char>),
    fs: Seq<FindingV>,
    rules: Seq<Seq<char>>,
) -> JsonV {
    JsonV::Object(
        seq![
            ("code"@, JsonV::Str(row.0)),
            ("id"@, JsonV::Str(row.1)),
            ("name"@, JsonV::Str(row.2)),
            ("url"@, JsonV::Str(row.3)),
            ("count"@, JsonV::UInt(code_count(fs, row.0))),
            ("hub_rules"@, crate::correlate::str_array(hub_for(rules, row.0))),
        ],
    )
}

/// The OWASP entries of the correlation, in category order.
pub fn owasp_entries(fs: &Vec<Finding>, rules: &Vec<String>) -> (r: Vec<Json>)
    ensures
        crate::json::jviews(r@) == crate::correlate::owasp_table().map_values(
            |row: (Seq<char>, Seq<char>, Seq<char>, Seq<char>)| owasp_entry(row, fviews(fs@), sviews(rules@)),
        ),
{
    let rows = crate::correlate::owasp_rows();
    let ghost t = crate::correlate::owasp_table();
    let mut out: Vec<Json> = Vec::new();
    let mut i: usize = 0;
    while i < rows.len()
        invariant
            i <= rows@.len() == t.len(),
            t == crate::correlate::owasp_table(),
            forall|k: int| 0 <= k < rows@.len() ==> (#[trigger] rows@[k]).0@ == t[k].0 && rows@[k].1@
                == t[k].1 && rows@[k].2@ == t[k].2 && rows@[k].3@ == t[k].3,
            out@.len() == i,
            forall|k: int| 0 <= k < i ==> #[trigger] out@[k]@ == owasp_entry(t[k], fviews(fs@), sviews(rules@)),
        decreases rows.len() - i,
    {
        let (c, id, n, u) = rows[i];
        let count = distinct_sources(fs, true, &chars_of(c));
        let hub = hub_rules_for(rules, c);
        let mut f: Vec<(String, Json)> = Vec::new();
        f.push((String::from_str("code"), Json::Str(String::from_str(c))));
        f.push((String::from_str("id"), Json::Str(String::from_str(id))));
        f.push((String::from_str("name"), Json::Str(String::from_str(n))));
        f.push((String::from_str("url"), Json::Str(String::from_str(u))));
        f.push((String::from_str("count"), Json::UInt(count as u64)));
        f.push((String::from_str("hub_rules"), strings_json(&hub)));
        let o = object_of(f);
        assert(crate::json::fview(f@) =~= owasp_entry(t[i as int], fviews(fs@), sviews(rules@))->Object_0);
        out.push(o);
        i = i + 1;
    }
    assert(crate::json::jviews(out@) =~= t.map_values(
        |row: (Seq<char>, Seq<char>, Seq<char>, Seq<char>)| owasp_entry(row, fviews(fs@), sviews(rules@)),
    ));
    out
}

/// The ATT&CK entry of the correlation: the technique and how many distinct sources have
/// findings naming it.
pub open spec fn attack_entry(row: (Seq<char>, Seq<char>, Seq<char>, Seq<char>), fs: Seq<FindingV>) -> JsonV {
    JsonV::Object(
        seq![
            ("id"@, JsonV::Str(row.0)),
            ("name"@, JsonV::Str(row.1)),
            ("url"@, JsonV::Str(row.3)),
            ("count"@, JsonV::UInt(technique_count(fs, row.0))),
        ],
    )
}

/// The ATT&CK entries of the correlation, in catalog order.
pub fn attack_entries(fs: &Vec<Finding>) -> (r: Vec<Json>)
    ensures
        crate::json::jviews(r@) == crate::correlate::attack_table().map_values(
            |row: (Seq<char>, Seq<char>, Seq<char>, Seq<char>)| attack_entry(row, fviews(fs@)),
        ),
{
    let rows = crate::correlate::attack_rows();
    let ghost t = crate::correlate::attack_table();
    let mut out: Vec<Json> = Vec::new();
    let mut i: usize = 0;
    while i < rows.len()
        invariant
            i <= rows@.len() == t.len(),
            t == crate::correlate::attack_table(),
            forall|k: int| 0 <= k < rows@.len() ==> (#[trigger] rows@[k]).0@ == t[k].0 && rows@[k].1@
                == t[k].1 && rows@[k].2@ == t[k].2 && rows@[k].3@ == t[k].3,
            out@.len() == i,
            forall|k: int| 0 <= k < i ==> #[trigger] out@[k]@ == attack_entry(t[k], fviews(fs@)),
        decreases rows.len() - i,
    {
        let (id, n, _ta, u) = rows[i];
        let count = distinct_sources(fs, false, &chars_of(id));
        let mut f: Vec<(String, Json)> = Vec::new();
        f.push((String::from_str("id"), Json::Str(String::from_str(id))));
        f.push((String::from_str("name"), Json::Str(String::from_str(n))));
        f.push((String::from_str("url"), Json::Str(String::from_str(u))));
        f.push((String::from_str("count"), Json::UInt(count as u64)));
        let o = object_of(f);
        assert(crate::json::fview(f@) =~= attack_entry(t[i as int], fviews(fs@))->Object_0);
        out.push(o);
        i = i + 1;
    }
    assert(crate::json::jviews(out@) =~= t.map_values(
        |row: (Seq<char>, Seq<char>, Seq<char>, Seq<char>)| attack_entry(row, fviews(fs@)),
    ));
    out
}

} // verus!

verus! {

/// The technique entry of the MITRE block: the technique, its count of distinct sources and
/// the OWASP codes of its findings, ascending.
pub open spec fn technique_entry(row: (Seq<char>, Seq<char>, Seq<char>, Seq<char>), fs: Seq<FindingV>) -> JsonV {
    JsonV::Object(
        seq![
            ("id"@, JsonV::Str(row.0)),
            ("name"@, JsonV::Str(row.1)),
            ("tactic"@, JsonV::Str(row.2)),
            ("url"@, JsonV::Str(row.3)),
            ("count"@, JsonV::UInt(technique_count(fs, row.0))),
            ("owasp"@, crate::correlate::str_array(sort_spec(distinct(technique_codes(fs, row.0))))),
        ],
    )
}

/// The ATT&CK tactics in kill-chain order.
pub open spec fn tactic_order() -> Seq<Seq<char>> {
    seq![
        "Reconnaissance"@,
        "Initial Access"@,
        "Execution"@,
        "Persistence"@,
        "Privilege Escalation"@,
        "Defense Evasion"@,
        "Credential Access"@,
        "Discovery"@,
        "Command and Control"@,
    ]
}

/// The tactic names in kill-chain order.
fn tactic_names() -> (v: Vec<&'static str>)
    ensures
        v@.len() == tactic_order().len(),
        forall|i: int| 0 <= i < v@.len() ==> (#[trigger] v@[i])@ == tactic_order()[i],
{
    vec![
        "Reconnaissance",
        "Initial Access",
        "Execution",
        "Persistence",
        "Privilege Escalation",
        "Defense Evasion",
        "Credential Access",
        "Discovery",
        "Command and Control",
    ]
}

/// The ids of the techniques of `t` under tactic `name`, in table order.
pub open spec fn tactic_ids(t: Seq<(Seq<char>, Seq<char>, Seq<char>, Seq<char>)>, name: Seq<char>) -> Seq<Seq<char>>
    decreases t.len(),
{
    if t.len() == 0 {
        Seq::empty()
    } else {
        let p = tactic_ids(t.drop_last(), name);
        if t.last().2 == name {
            p.push(t.last().0)
        } else {
            p
        }
    }
}

/// The summed counts of the techniques of `t` under tactic `name`.
pub open spec fn tactic_sum(t: Seq<(Seq<char>, Seq<char>, Seq<char>, Seq<char>)>, name: Seq<char>, fs: Seq<FindingV>) -> int
    decreases t.len(),
{
    if t.len() == 0 {
        0
    } else {
        tactic_sum(t.drop_last(), name, fs) + if t.last().2 == name {
            technique_count(fs, t.last().0)
        } else {
            0
        }
    }
}

/// The tactic entries of the MITRE block for the tactics of `names` that have techniques.
pub open spec fn tactic_entries(names: Seq<Seq<char>>, fs: Seq<FindingV>) -> Seq<JsonV>
    decreases names.len(),
{
    if names.len() == 0 {
        Seq::empty()
    } else {
        let p = tactic_entries(names.drop_last(), fs);
        let n = names.last();
        let ids = tactic_ids(crate::correlate::attack_table(), n);
        if ids.len() > 0 {
            p.push(
                JsonV::Object(
                    seq![
                        ("name"@, JsonV::Str(n)),
                        ("count"@, JsonV::UInt(tactic_sum(crate::correlate::attack_table(), n, fs))),
                        ("techniques"@, crate::correlate::str_array(ids)),
                    ],
                ),
            )
        } else {
            p
        }
    }
}

/// The ids of the techniques of `t` that no finding names.
pub open spec fn uncovered_ids(t: Seq<(Seq<char>, Seq<char>, Seq<char>, Seq<char>)>, fs: Seq<FindingV>) -> Seq<Seq<char>>
    decreases t.len(),
{
    if t.len() == 0 {
        Seq::empty()
    } else {
        let p = uncovered_ids(t.drop_last(), fs);
        if technique_count(fs, t.last().0) == 0 {
            p.push(t.last().0)
        } else {
            p
        }
    }
}

/// The MITRE ATT&CK block of the correlation.
pub open spec fn mitre_spec(fs: Seq<FindingV>) -> JsonV {
    let t = crate::correlate::attack_table();
    JsonV::Object(
        seq![
            ("techniques"@, JsonV::Array(t.map_values(|row: (Seq<char>, Seq<char>, Seq<char>, Seq<char>)| technique_entry(row, fs)))),
            ("tactics"@, JsonV::Array(tactic_entries(tactic_order(), fs))),
            ("findings"@, JsonV::Array(fs.map_values(|f: FindingV| finding_json(f)))),
            ("uncovered"@, crate::correlate::str_array(uncovered_ids(t, fs))),
        ],
    )
}

/// The count of each catalog technique, in catalog order.
fn technique_counts(fs: &Vec<Finding>) -> (r: Vec<u64>)
    ensures
        r@.len() == crate::correlate::attack_table().len(),
        forall|k: int| 0 <= k < r@.len() ==> #[trigger] r@[k] as int == technique_count(fviews(fs@), crate::correlate::attack_table()[k].0),
        forall|k: int| 0 <= k < r@.len() ==> #[trigger] r@[k] <= fs@.len(),
{
    let rows = crate::correlate::attack_rows();
    let ghost t = crate::correlate::attack_table();
    let mut out: Vec<u64> = Vec::new();
    let mut i: usize = 0;
    while i < rows.len()
        invariant
            i <= rows@.len() == t.len(),
            t == crate::correlate::attack_table(),
            forall|k: int| 0 <= k < rows@.len() ==> (#[trigger] rows@[k]).0@ == t[k].0,
            out@.len() == i,
            forall|k: int| 0 <= k < i ==> #[trigger] out@[k] as int == technique_count(fviews(fs@), t[k].0),
            forall|k: int| 0 <= k < i ==> #[trigger] out@[k] <= fs@.len(),
        decreases rows.len() - i,
    {
        let n = distinct_sources(fs, false, &chars_of(rows[i].0));
        out.push(n as u64);
        i = i + 1;
    }
    out
}

/// The technique entries of the MITRE block, in catalog order.
fn technique_entries(fs: &Vec<Finding>) -> (r: Vec<Json>)
    ensures
        crate::json::jviews(r@) == crate::correlate::attack_table().map_values(
            |row: (Seq<char>, Seq<char>, Seq<char>, Seq<char>)| technique_entry(row, fviews(fs@)),
        ),
{
    let rows = crate::correlate::attack_rows();
    let ghost t = crate::correlate::attack_table();
    let mut out: Vec<Json> = Vec::new();
    let mut i: usize = 0;
    while i < rows.len()
        invariant
            i <= rows@.len() == t.len(),
            t == crate::correlate::attack_table(),
            forall|k: int| 0 <= k < rows@.len() ==> (#[trigger] rows@[k]).0@ == t[k].0 && rows@[k].1@
                == t[k].1 && rows@[k].2@ == t[k].2 && rows@[k].3@ == t[k].3,
            out@.len() == i,
            forall|k: int| 0 <= k < i ==> #[trigger] out@[k]@ == technique_entry(t[k], fviews(fs@)),
        decreases rows.len() - i,
    {
        let (id, n, ta, u) = rows[i];
        let idc = chars_of(id);
        let count = distinct_sources(fs, false, &idc);
        let codes = technique_owasp(fs, &idc);
        let mut f: Vec<(String, Json)> = Vec::new();
        f.push((String::from_str("id"), Json::Str(String::from_str(id))));
        f.push((String::from_str("name"), Json::Str(String::from_str(n))));
        f.push((String::from_str("tactic"), Json::Str(String::from_str(ta))));
        f.push((String::from_str("url"), Json::Str(String::from_str(u))));
        f.push((String::from_str("count"), Json::UInt(count as u64)));
        f.push((String::from_str("owasp"), crate::correlate::str_array_pub(&codes)));
        let o = object_of(f);
        assert(crate::json::fview(f@) =~= technique_entry(t[i as int], fviews(fs@))->Object_0);
        out.push(o);
        i = i + 1;
    }
    assert(crate::json::jviews(out@) =~= t.map_values(
        |row: (Seq<char>, Seq<char>, Seq<char>, Seq<char>)| technique_entry(row, fviews(fs@)),
    ));
    out
}

/// The ids and summed count of the techniques under tactic `name`.
fn tactic_of(counts: &Vec<u64>, name: &str) -> (r: (Vec<String>, u64))
    requires
        counts@.len() == crate::correlate::attack_table().len(),
        forall|k: int| 0 <= k < counts@.len() ==> #[trigger] counts@[k] <= 0x0100_0000_0000_0000u64,
    ensures
        sviews(r.0@) == tactic_ids(crate::correlate::attack_table(), name@),
        r.1 as int == tactic_counts_sum(crate::correlate::attack_table(), name@, counts@),
{
    let rows = crate::correlate::attack_rows();
    let ghost t = crate::correlate::attack_table();
    let mut ids: Vec<String> = Vec::new();
    let mut sum: u64 = 0;
    let mut i: usize = 0;
    assert(t.take(0) =~= Seq::<(Seq<char>, Seq<char>, Seq<char>, Seq<char>)>::empty());
    while i < rows.len()
        invariant
            i <= rows@.len() == t.len() == counts@.len(),
            t == crate::correlate::attack_table(),
            t.len() == 13,
            forall|k: int| 0 <= k < counts@.len() ==> #[trigger] counts@[k] <= 0x0100_0000_0000_0000u64,
            forall|k: int| 0 <= k < rows@.len() ==> (#[trigger] rows@[k]).0@ == t[k].0 && rows@[k].2@ == t[k].2,
            sviews(ids@) == tactic_ids(t.take(i as int), name@),
            sum as int == tactic_counts_sum(t.take(i as int), name@, counts@.take(i as int)),
            sum <= i * 0x0100_0000_0000_0000,
        decreases rows.len() - i,
    {
        assert(t.take(i + 1).drop_last() =~= t.take(i as int));
        assert(counts@.take(i + 1).drop_last() =~= counts@.take(i as int));
        let ta = chars_of(rows[i].2);
        if crate::text::eq_chars(&ta, &chars_of(name)) {
            let ghost o = ids@;
            ids.push(String::from_str(rows[i].0));
            assert(sviews(ids@) =~= sviews(o).push(t[i as int].0));
            sum = sum + counts[i];
        }
        i = i + 1;
    }
    assert(t.take(rows.len() as int) =~= t);
    assert(counts@.take(rows.len() as int) =~= counts@);
    (ids, sum)
}

/// The summed counts (given per table row) of the techniques under tactic `name`.
pub open spec fn tactic_counts_sum(t: Seq<(Seq<char>, Seq<char>, Seq<char>, Seq<char>)>, name: Seq<char>, counts: Seq<u64>) -> int
    decreases t.len(),
{
    if t.len() == 0 {
        0
    } else {
        tactic_counts_sum(t.drop_last(), name, counts.drop_last()) + if t.last().2 == name {
            counts.last() as int
        } else {
            0
        }
    }
}

/// Per-row counts that are the technique counts give the tactic sum.
pub proof fn lemma_tactic_sum(t: Seq<(Seq<char>, Seq<char>, Seq<char>, Seq<char>)>, name: Seq<char>, counts: Seq<u64>, fs: Seq<FindingV>)
    requires
        counts.len() == t.len(),
        forall|k: int| 0 <= k < counts.len() ==> #[trigger] counts[k] as int == technique_count(fs, t[k].0),
    ensures
        tactic_counts_sum(t, name, counts) == tactic_sum(t, name, fs),
    decreases t.len(),
{
    if t.len() > 0 {
        lemma_tactic_sum(t.drop_last(), name, counts.drop_last(), fs);
    }
}

} // verus!

verus! {

/// The tactic entries of the MITRE block.
fn tactic_entries_exec(fs: &Vec<Finding>, counts: &Vec<u64>) -> (r: Vec<Json>)
    requires
        counts@.len() == crate::correlate::attack_table().len(),
        forall|k: int| 0 <= k < counts@.len() ==> #[trigger] counts@[k] as int == technique_count(fviews(fs@), crate::correlate::attack_table()[k].0),
        forall|k: int| 0 <= k < counts@.len() ==> #[trigger] counts@[k] <= 0x0100_0000_0000_0000u64,
    ensures
        crate::json::jviews(r@) == tactic_entries(tactic_order(), fviews(fs@)),
{
    let names = tactic_names();
    let ghost ord = tactic_order();
    let mut out: Vec<Json> = Vec::new();
    let mut i: usize = 0;
    assert(ord.take(0) =~= Seq::<Seq<char>>::empty());
    while i < names.len()
        invariant
            i <= names@.len() == ord.len(),
            ord == tactic_order(),
            forall|k: int| 0 <= k < names@.len() ==> (#[trigger] names@[k])@ == ord[k],
            counts@.len() == crate::correlate::attack_table().len(),
            forall|k: int| 0 <= k < counts@.len() ==> #[trigger] counts@[k] as int == technique_count(fviews(fs@), crate::correlate::attack_table()[k].0),
            forall|k: int| 0 <= k < counts@.len() ==> #[trigger] counts@[k] <= 0x0100_0000_0000_0000u64,
            crate::json::jviews(out@) == tactic_entries(ord.take(i as int), fviews(fs@)),
        decreases names.len() - i,
    {
        let name = names[i];
        assert(ord.take(i + 1).drop_last() =~= ord.take(i as int));
        assert(ord.take(i + 1).last() == name@);
        let (ids, sum) = tactic_of(counts, name);
        proof {
            lemma_tactic_sum(crate::correlate::attack_table(), name@, counts@, fviews(fs@));
        }
        if ids.len() > 0 {
            let mut f: Vec<(String, Json)> = Vec::new();
            f.push((String::from_str("name"), Json::Str(String::from_str(name))));
            f.push((String::from_str("count"), Json::UInt(sum)));
            f.push((String::from_str("techniques"), strings_json(&ids)));
            let o = object_of(f);
            assert(crate::json::fview(f@) =~= seq![
                ("name"@, JsonV::Str(name@)),
                ("count"@, JsonV::UInt(tactic_sum(crate::correlate::attack_table(), name@, fviews(fs@)))),
                ("techniques"@, crate::correlate::str_array(tactic_ids(crate::correlate::attack_table(), name@))),
            ]);
            let ghost prev = out@;
            out.push(o);
            assert(crate::json::jviews(out@) =~= crate::json::jviews(prev).push(o@));
        }
        i = i + 1;
    }
    assert(ord.take(names.len() as int) =~= ord);
    out
}

/// The ids of the catalog techniques no finding names.
fn uncovered_exec(fs: &Vec<Finding>, counts: &Vec<u64>) -> (r: Vec<String>)
    requires
        counts@.len() == crate::correlate::attack_table().len(),
        forall|k: int| 0 <= k < counts@.len() ==> #[trigger] counts@[k] as int == technique_count(fviews(fs@), crate::correlate::attack_table()[k].0),
    ensures
        sviews(r@) == uncovered_ids(crate::correlate::attack_table(), fviews(fs@)),
{
    let rows = crate::correlate::attack_rows();
    let ghost t = crate::correlate::attack_table();
    let mut out: Vec<String> = Vec::new();
    let mut i: usize = 0;
    assert(t.take(0) =~= Seq::<(Seq<char>, Seq<char>, Seq<char>, Seq<char>)>::empty());
    while i < rows.len()
        invariant
            i <= rows@.len() == t.len() == counts@.len(),
            t == crate::correlate::attack_table(),
            forall|k: int| 0 <= k < rows@.len() ==> (#[trigger] rows@[k]).0@ == t[k].0,
            forall|k: int| 0 <= k < counts@.len() ==> #[trigger] counts@[k] as int == technique_count(fviews(fs@), t[k].0),
            sviews(out@) == uncovered_ids(t.take(i as int), fviews(fs@)),
        decreases rows.len() - i,
    {
        assert(t.take(i + 1).drop_last() =~= t.take(i as int));
        assert(t.take(i + 1).last() == t[i as int]);
        if counts[i] == 0 {
            let ghost o = out@;
            out.push(String::from_str(rows[i].0));
            assert(sviews(out@) =~= sviews(o).push(t[i as int].0));
        }
        i = i + 1;
    }
    assert(t.take(rows.len() as int) =~= t);
    out
}

/// The MITRE ATT&CK block of the correlation: every catalog technique with its count and
/// OWASP codes, the tactics in kill-chain order with their summed counts, the findings, and
/// the techniques no finding names.
pub fn mitre_block(fs: &Vec<Finding>) -> (r: Json)
    requires
        fs@.len() <= 0x0100_0000_0000_0000,
    ensures
        r@ == mitre_spec(fviews(fs@)),
{
    let counts = technique_counts(fs);
    let techniques = technique_entries(fs);
    let tactics = tactic_entries_exec(fs, &counts);
    let found = findings_json(fs);
    let uncovered = uncovered_exec(fs, &counts);
    let mut f: Vec<(String, Json)> = Vec::new();
    f.push((String::from_str("techniques"), array_of(techniques)));
    f.push((String::from_str("tactics"), array_of(tactics)));
    f.push((String::from_str("findings"), array_of(found)));
    f.push((String::from_str("uncovered"), strings_json(&uncovered)));
    let o = object_of(f);
    assert(crate::json::fview(f@) =~= mitre_spec(fviews(fs@))->Object_0);
    o
}

/// The connector object of the correlation payload.
pub open spec fn connector_spec(
    ctype: Seq<char>,
    name: Seq<char>,
    scope: Seq<char>,
    status: Seq<char>,
    note: Seq<char>,
) -> JsonV {
    JsonV::Object(
        seq![
            ("type"@, JsonV::Str(ctype)),
            ("name"@, JsonV::Str(name)),
            ("scope"@, JsonV::Str(scope)),
            ("status"@, JsonV::Str(status)),
            ("note"@, JsonV::Str(note)),
            ("push"@, JsonV::Bool(false)),
        ],
    )
}

/// A connector object.
fn connector(ctype: &str, name: &str, scope: &str, status: &str, note: &str) -> (r: Json)
    ensures
        r@ == connector_spec(ctype@, name@, scope@, status@, note@),
{
    let mut f: Vec<(String, Json)> = Vec::new();
    f.push((String::from_str("type"), Json::Str(String::from_str(ctype))));
    f.push((String::from_str("name"), Json::Str(String::from_str(name))));
    f.push((String::from_str("scope"), Json::Str(String::from_str(scope))));
    f.push((String::from_str("status"), Json::Str(String::from_str(status))));
    f.push((String::from_str("note"), Json::Str(String::from_str(note))));
    f.push((String::from_str("push"), Json::Bool(false)));
    let o = object_of(f);
    assert(crate::json::fview(f@) =~= connector_spec(ctype@, name@, scope@, status@, note@)->Object_0);
    o
}

/// `configured` or `unconfigured`.
pub open spec fn status_word(on: bool) -> Seq<char> {
    if on {
        "configured"@
    } else {
        "unconfigured"@
    }
}

/// The note of the OWASP connector.
pub const OWASP_NOTE: &'static str = "CrowdSec scenario/AppSec/CRS IDs mapped to A01\u{2013}A10. https://owasp.org/Top10/2021/";

/// The CTI connectors of the console, given whether the MISP, TheHive and OpenCTI endpoints
/// are configured. None of them pushes findings anywhere.
pub open spec fn connectors_spec(misp: bool, hive: bool, opencti: bool) -> Seq<JsonV> {
    seq![
        connector_spec("INTERNAL_ENRICHMENT"@, "MITRE ATT&CK"@, "local-catalog"@, "configured"@, "Local ATT&CK Enterprise subset. Tactics match attack.mitre.org. No GitHub download."@),
        connector_spec("INTERNAL_ENRICHMENT"@, "OWASP Top 10:2021"@, "local-catalog"@, "configured"@, OWASP_NOTE@),
        connector_spec("INTERNAL_EXPORT_FILE"@, "MISP"@, "file-export"@, status_word(misp), "Download MISP event JSON. No outbound push of findings."@),
        connector_spec("INTERNAL_EXPORT_FILE"@, "TheHive"@, "file-export"@, status_word(hive), "Download TheHive alert JSON. No outbound push of findings."@),
        connector_spec("INTERNAL_EXPORT_FILE"@, "OpenCTI"@, "file-export"@, status_word(opencti), "Download STIX 2.1 bundle. No outbound push of findings."@),
        connector_spec("EXTERNAL_IMPORT"@, "OpenCTI import"@, "disabled"@, "unconfigured"@, "Inbound connector import is not enabled."@),
        connector_spec("STREAM"@, "OpenCTI stream"@, "disabled"@, "unconfigured"@, "Live stream push is not enabled."@),
    ]
}

/// `configured` or `unconfigured`.
fn status_word_exec(on: bool) -> (r: &'static str)
    ensures
        r@ == status_word(on),
{
    if on {
        "configured"
    } else {
        "unconfigured"
    }
}

/// The CTI connectors, given which export endpoints are configured.
pub fn connectors(misp: bool, hive: bool, opencti: bool) -> (r: Vec<Json>)
    ensures
        crate::json::jviews(r@) == connectors_spec(misp, hive, opencti),
{
    let mut v: Vec<Json> = Vec::new();
    v.push(connector("INTERNAL_ENRICHMENT", "MITRE ATT&CK", "local-catalog", "configured", "Local ATT&CK Enterprise subset. Tactics match attack.mitre.org. No GitHub download."));
    v.push(connector("INTERNAL_ENRICHMENT", "OWASP Top 10:2021", "local-catalog", "configured", OWASP_NOTE));
    v.push(connector("INTERNAL_EXPORT_FILE", "MISP", "file-export", status_word_exec(misp), "Download MISP event JSON. No outbound push of findings."));
    v.push(connector("INTERNAL_EXPORT_FILE", "TheHive", "file-export", status_word_exec(hive), "Download TheHive alert JSON. No outbound push of findings."));
    v.push(connector("INTERNAL_EXPORT_FILE", "OpenCTI", "file-export", status_word_exec(opencti), "Download STIX 2.1 bundle. No outbound push of findings."));
    v.push(connector("EXTERNAL_IMPORT", "OpenCTI import", "disabled", "unconfigured", "Inbound connector import is not enabled."));
    v.push(connector("STREAM", "OpenCTI stream", "disabled", "unconfigured", "Live stream push is not enabled."));
    assert(crate::json::jviews(v@) =~= connectors_spec(misp, hive, opencti));
    v
}

/// The correlation payload before secret-looking keys are scrubbed.
pub open spec fn payload_spec(alerts: Seq<JsonV>, rules: Seq<Seq<char>>, misp: bool, hive: bool, opencti: bool) -> JsonV {
    let fs = collapse_spec(alert_findings(alerts));
    JsonV::Object(
        seq![
            ("ok"@, JsonV::Bool(true)),
            ("source"@, JsonV::Str(crate::correlate::OWASP_SOURCE@)),
            ("push"@, JsonV::Bool(false)),
            ("owasp"@, JsonV::Array(crate::correlate::owasp_table().map_values(
                |row: (Seq<char>, Seq<char>, Seq<char>, Seq<char>)| owasp_entry(row, fs, rules),
            ))),
            ("findings"@, JsonV::Array(fs.map_values(|f: FindingV| finding_json(f)))),
            ("attack"@, JsonV::Array(crate::correlate::attack_table().map_values(
                |row: (Seq<char>, Seq<char>, Seq<char>, Seq<char>)| attack_entry(row, fs),
            ))),
            ("mitre"@, mitre_spec(fs)),
            ("connectors"@, JsonV::Array(connectors_spec(misp, hive, opencti))),
        ],
    )
}

/// Correlates alerts into OWASP Top 10:2021 categories and ATT&CK techniques: the categories
/// with their distinct-source counts and the hub rules that map to them, the collapsed
/// findings, the techniques with their counts, the MITRE block and the connectors; keys that
/// look like secrets are scrubbed. `misp`, `hive` and `opencti` say which export endpoints
/// are configured.
pub fn correlate(alerts: &Vec<Json>, hub_rules: Option<&Vec<String>>, misp: bool, hive: bool, opencti: bool) -> (r: Json)
    requires
        alerts@.len() <= 0x0100_0000_0000_0000,
    ensures
        r@ == crate::correlate::scrub_spec(
            payload_spec(
                crate::json::jviews(alerts@),
                match hub_rules {
                    Some(h) => sviews(h@),
                    None => Seq::empty(),
                },
                misp,
                hive,
                opencti,
            ),
        ),
{
    let none: Vec<String> = Vec::new();
    let rules: &Vec<String> = match hub_rules {
        Some(h) => h,
        None => &none,
    };
    assert(sviews(none@) =~= Seq::<Seq<char>>::empty());
    let all = findings_of(alerts);
    proof {
        lemma_findings_len(crate::json::jviews(alerts@));
    }
    let fs = collapse_findings(all);
    proof {
        lemma_collapse_len(fviews(all@));
    }
    let owasp = owasp_entries(&fs, rules);
    let found = findings_json(&fs);
    let attack = attack_entries(&fs);
    let mitre = mitre_block(&fs);
    let conns = connectors(misp, hive, opencti);
    let mut f: Vec<(String, Json)> = Vec::new();
    f.push((String::from_str("ok"), Json::Bool(true)));
    f.push((String::from_str("source"), Json::Str(String::from_str(crate::correlate::OWASP_SOURCE))));
    f.push((String::from_str("push"), Json::Bool(false)));
    f.push((String::from_str("owasp"), array_of(owasp)));
    f.push((String::from_str("findings"), array_of(found)));
    f.push((String::from_str("attack"), array_of(attack)));
    f.push((String::from_str("mitre"), mitre));
    f.push((String::from_str("connectors"), array_of(conns)));
    let payload = object_of(f);
    assert(crate::json::fview(f@) =~= payload_spec(
        crate::json::jviews(alerts@),
        sviews(rules@),
        misp,
        hive,
        opencti,
    )->Object_0);
    crate::correlate::scrub(payload)
}

} // verus!

verus! {

/// No two rows share a source address and OWASP code.
pub open spec fn keys_unique(rows: Seq<FindingV>) -> bool {
    forall|i: int, j: int|
        0 <= i < j < rows.len() ==> !(#[trigger] rows[i].ip == #[trigger] rows[j].ip && rows[i].owasp == rows[j].owasp)
}

/// The number of alerts the rows stand for.
pub open spec fn events_total(rows: Seq<FindingV>) -> int
    decreases rows.len(),
{
    if rows.len() == 0 {
        0
    } else {
        events_total(rows.drop_last()) + rows.last().events
    }
}

/// Without a matching row the index is -1; otherwise it points at a matching row.
proof fn lemma_row_index_found(rows: Seq<FindingV>, ip: Seq<char>, owasp: Seq<char>)
    ensures
        row_index(rows, ip, owasp) < 0 ==> forall|k: int| 0 <= k < rows.len() ==> !(#[trigger] rows[k].ip == ip && rows[k].owasp == owasp),
        row_index(rows, ip, owasp) >= 0 ==> rows[row_index(rows, ip, owasp)].ip == ip && rows[row_index(rows, ip, owasp)].owasp == owasp,
    decreases rows.len(),
{
    if rows.len() > 0 {
        lemma_row_index_found(rows.drop_last(), ip, owasp);
        lemma_row_index_range(rows.drop_last(), ip, owasp);
        let p = rows.drop_last();
        if row_index(rows, ip, owasp) < 0 {
            assert forall|k: int| 0 <= k < rows.len() implies !(#[trigger] rows[k].ip == ip && rows[k].owasp == owasp) by {
                if k < rows.len() - 1 {
                    assert(p[k] == rows[k]);
                }
            }
        }
        if row_index(p, ip, owasp) >= 0 {
            assert(p[row_index(p, ip, owasp)] == rows[row_index(p, ip, owasp)]);
        }
    }
}

/// Replacing one row changes the total by the difference of its events.
proof fn lemma_events_update(rows: Seq<FindingV>, i: int, r: FindingV)
    requires
        0 <= i < rows.len(),
    ensures
        events_total(rows.update(i, r)) == events_total(rows) - rows[i].events + r.events,
    decreases rows.len(),
{
    if i < rows.len() - 1 {
        assert(rows.update(i, r).drop_last() =~= rows.drop_last().update(i, r));
        lemma_events_update(rows.drop_last(), i, r);
    } else {
        assert(rows.update(i, r).drop_last() =~= rows.drop_last());
    }
}

/// Collapsing keeps one row per (source address, OWASP code), and the rows together stand
/// for every finding: their events add up to the number of findings.
pub proof fn law_collapse_rows(fs: Seq<FindingV>)
    ensures
        keys_unique(collapse_spec(fs)),
        events_total(collapse_spec(fs)) == fs.len(),
    decreases fs.len(),
{
    if fs.len() > 0 {
        law_collapse_rows(fs.drop_last());
        let prev = collapse_spec(fs.drop_last());
        let f = fs.last();
        assert(collapse_spec(fs) == absorb(prev, f));
        lemma_row_index_range(prev, f.ip, f.owasp);
        lemma_row_index_found(prev, f.ip, f.owasp);
        let i = row_index(prev, f.ip, f.owasp);
        if i < 0 {
            let next = prev.push(start_row(f));
            assert(next.drop_last() =~= prev);
            assert forall|a: int, b: int| 0 <= a < b < next.len() implies !(#[trigger] next[a].ip == #[trigger] next[b].ip
                && next[a].owasp == next[b].owasp) by {
                if b == next.len() - 1 {
                    assert(next[a] == prev[a]);
                } else {
                    assert(next[a] == prev[a] && next[b] == prev[b]);
                }
            }
        } else {
            let m = merge_row(prev[i], f);
            let next = prev.update(i, m);
            lemma_events_update(prev, i, m);
            assert forall|a: int, b: int| 0 <= a < b < next.len() implies !(#[trigger] next[a].ip == #[trigger] next[b].ip
                && next[a].owasp == next[b].owasp) by {
                assert(next[a].ip == prev[a].ip && next[a].owasp == prev[a].owasp);
                assert(next[b].ip == prev[b].ip && next[b].owasp == prev[b].owasp);
            }
        }
    }
}

} // verus!
