//! A STIX 2.1 bundle of a correlation payload, to download: the console's identity, the
//! OWASP and ATT&CK attack patterns, an indicator per finding and the relationship of each
//! indicator to its OWASP category. Object ids are derived from SHA-1 digests of seeds, so
//! the same payload gives the same ids.
use vstd::prelude::*;

use crate::digest::{sha1_hex, sha1_text, utf8_encode};
use crate::correlate::{attack_table, js, meta_in, scrub, scrub_spec, OWASP_SOURCE};
use crate::findings::{array_of, object_of, strs_of};
use crate::json::{clone_json, fview, get, jarr, jget, jstr, jtext, jviews, join_comma, str_or, str_or_empty, Json, JsonV};
use crate::text::{append_chars, append_str, chars_of, slice_chars, string_of, trim, trim_chars};

verus! {

/// The first 32 digits of a digest grouped as a UUID: 8-4-4-4-12.
pub open spec fn uuid_form(h: Seq<char>) -> Seq<char> {
    h.subrange(0, 8) + "-"@ + h.subrange(8, 12) + "-"@ + h.subrange(12, 16) + "-"@ + h.subrange(16, 20)
        + "-"@ + h.subrange(20, 32)
}

/// The STIX id of an object of type `kind` derived from `seed`: `kind--uuid`, the UUID
/// being the first 32 digits of the SHA-1 of the seed's UTF-8 encoding.
pub open spec fn stix_id_spec(kind: Seq<char>, seed: Seq<char>) -> Seq<char> {
    kind + "--"@ + uuid_form(sha1_hex(utf8_encode(seed)))
}

/// The STIX id of type `kind` derived from `seed`.
pub fn stix_id(kind: &str, seed: &Vec<char>) -> (r: String)
    ensures
        r@ == stix_id_spec(kind@, seed@),
{
    let h = chars_of(sha1_text(seed).as_str());
    let mut out = chars_of(kind);
    append_str(&mut out, "--");
    append_chars(&mut out, &slice_chars(&h, 0, 8));
    append_str(&mut out, "-");
    append_chars(&mut out, &slice_chars(&h, 8, 12));
    append_str(&mut out, "-");
    append_chars(&mut out, &slice_chars(&h, 12, 16));
    append_str(&mut out, "-");
    append_chars(&mut out, &slice_chars(&h, 16, 20));
    append_str(&mut out, "-");
    append_chars(&mut out, &slice_chars(&h, 20, 32));
    proof {
        reveal_strlit("--");
        reveal_strlit("-");
    }
    assert(out@ =~= stix_id_spec(kind@, seed@));
    string_of(&out)
}

/// How many bytes UTF-8 takes for `c`.
pub open spec fn utf8_len(c: char) -> int {
    if (c as u32) < 0x80 {
        1
    } else if (c as u32) < 0x800 {
        2
    } else if (c as u32) < 0x10000 {
        3
    } else {
        4
    }
}

/// How many bytes UTF-8 takes for `s`.
pub open spec fn utf8_size(s: Seq<char>) -> int
    decreases s.len(),
{
    if s.len() == 0 {
        0
    } else {
        utf8_len(s[0]) + utf8_size(s.drop_first())
    }
}

/// The longest prefix of `s` whose UTF-8 encoding takes at most `n` bytes (all of `s` when
/// it is shorter).
pub open spec fn byte_prefix(s: Seq<char>, n: int) -> Seq<char>
    decreases s.len(),
{
    if s.len() == 0 || utf8_len(s[0]) > n {
        Seq::empty()
    } else {
        seq![s[0]] + byte_prefix(s.drop_first(), n - utf8_len(s[0]))
    }
}

/// Whether cutting the UTF-8 text of `s` after `n` bytes falls between two characters
/// (or `s` takes no more than `n` bytes), so that `&text[..n]` is defined.
pub open spec fn cuts_cleanly(s: Seq<char>, n: int) -> bool {
    utf8_size(s) <= n || utf8_size(byte_prefix(s, n)) == n
}

/// How many bytes UTF-8 takes for `c`.
fn utf8_len_exec(c: char) -> (r: usize)
    ensures
        r as int == utf8_len(c),
{
    let u = c as u32;
    if u < 0x80 {
        1
    } else if u < 0x800 {
        2
    } else if u < 0x10000 {
        3
    } else {
        4
    }
}

/// The longest prefix of `v` that fits in `n` bytes of UTF-8.
pub fn byte_prefix_exec(v: &Vec<char>, n: usize) -> (r: Vec<char>)
    ensures
        r@ == byte_prefix(v@, n as int),
{
    let mut out: Vec<char> = Vec::new();
    let mut room: usize = n;
    let mut i: usize = 0;
    assert(v@.skip(0) =~= v@);
    while i < v.len()
        invariant
            i <= v@.len(),
            room <= n,
            out@ == v@.take(i as int),
            byte_prefix(v@, n as int) == out@ + byte_prefix(v@.skip(i as int), room as int),
        decreases v.len() - i,
    {
        let ghost rest = v@.skip(i as int);
        assert(rest[0] == v@[i as int]);
        assert(rest.drop_first() =~= v@.skip(i + 1));
        let w = utf8_len_exec(v[i]);
        if w > room {
            assert(byte_prefix(rest, room as int) =~= Seq::<char>::empty());
            assert(out@ + Seq::<char>::empty() =~= out@);
            return out;
        }
        out.push(v[i]);
        assert(out@ =~= v@.take(i + 1));
        room = room - w;
        assert(byte_prefix(v@, n as int) =~= out@ + byte_prefix(v@.skip(i + 1), room as int));
        i = i + 1;
    }
    assert(v@.skip(i as int) =~= Seq::<char>::empty());
    assert(out@ + Seq::<char>::empty() =~= out@);
    out
}

/// A `(key, string)` field.
fn sfield(k: &str, v: &str) -> (r: (String, Json))
    ensures
        r.0@ == k@,
        r.1@ == js(v@),
{
    (String::from_str(k), Json::Str(String::from_str(v)))
}

/// A `(key, string)` field from characters.
fn cfield(k: &str, v: &Vec<char>) -> (r: (String, Json))
    ensures
        r.0@ == k@,
        r.1@ == js(v@),
{
    (String::from_str(k), Json::Str(string_of(v)))
}

/// The console's STIX identity, created and modified at `now`.
pub open spec fn identity_spec(now: Seq<char>) -> JsonV {
    JsonV::Object(
        seq![
            ("type"@, js("identity"@)),
            ("spec_version"@, js("2.1"@)),
            ("id"@, js(stix_id_spec("identity"@, "waf-console"@))),
            ("created"@, js(now)),
            ("modified"@, js(now)),
            ("name"@, js("WAF Console"@)),
            ("identity_class"@, js("system"@)),
            ("description"@, js("Local CrowdSec WAF console. File export only; push=False."@)),
        ],
    )
}

/// The console's STIX identity.
fn identity_exec(now: &str) -> (r: Json)
    ensures
        r@ == identity_spec(now@),
{
    let id = stix_id("identity", &chars_of("waf-console"));
    let mut f: Vec<(String, Json)> = Vec::new();
    f.push(sfield("type", "identity"));
    f.push(sfield("spec_version", "2.1"));
    f.push(sfield("id", id.as_str()));
    f.push(sfield("created", now));
    f.push(sfield("modified", now));
    f.push(sfield("name", "WAF Console"));
    f.push(sfield("identity_class", "system"));
    f.push(sfield("description", "Local CrowdSec WAF console. File export only; push=False."));
    assert(fview(f@) =~= identity_spec(now@)->Object_0);
    object_of(f)
}

/// A field of `v`, or `dflt` where absent.
pub open spec fn field_or(v: JsonV, k: Seq<char>, dflt: JsonV) -> JsonV {
    match jget(v, k) {
        Some(x) => x,
        None => dflt,
    }
}

/// A field of `v` (a copy), or `dflt` where absent.
fn field_or_exec(v: &Json, k: &str, dflt: Json) -> (r: Json)
    ensures
        r@ == field_or(v@, k@, dflt@),
{
    match get(v, k) {
        Some(x) => clone_json(x),
        None => dflt,
    }
}

/// Whether an OWASP category of the payload gets an attack pattern: its code is a
/// non-empty string other than `none`.
pub open spec fn owasp_kept(cat: JsonV) -> bool {
    let code = str_or_empty(cat, "code"@);
    code.len() > 0 && code != "none"@
}

/// The attack pattern of an OWASP category of the payload.
pub open spec fn owasp_pattern(cat: JsonV, now: Seq<char>) -> JsonV {
    let code = str_or_empty(cat, "code"@);
    let url = field_or(cat, "url"@, js(OWASP_SOURCE@));
    JsonV::Object(
        seq![
            ("type"@, js("attack-pattern"@)),
            ("spec_version"@, js("2.1"@)),
            ("id"@, js(stix_id_spec("attack-pattern"@, "owasp-"@ + code))),
            ("created"@, js(now)),
            ("modified"@, js(now)),
            ("name"@, js(trim(code + ":2021 "@ + str_or_empty(cat, "name"@)))),
            ("description"@, url),
            ("external_references"@, JsonV::Array(seq![JsonV::Object(seq![
                ("source_name"@, js("owasp"@)),
                ("external_id"@, field_or(cat, "id"@, js(code + ":2021"@))),
                ("url"@, url),
            ])])),
        ],
    )
}

/// The attack patterns of the payload's OWASP categories, in order.
pub open spec fn owasp_patterns(cats: Seq<JsonV>, now: Seq<char>) -> Seq<JsonV>
    decreases cats.len(),
{
    if cats.len() == 0 {
        Seq::empty()
    } else {
        let prev = owasp_patterns(cats.drop_last(), now);
        if owasp_kept(cats.last()) {
            prev.push(owasp_pattern(cats.last(), now))
        } else {
            prev
        }
    }
}

/// `prefix + s`.
fn prefixed(prefix: &str, s: &Vec<char>) -> (r: Vec<char>)
    ensures
        r@ == prefix@ + s@,
{
    let mut out = chars_of(prefix);
    append_chars(&mut out, s);
    out
}

/// The attack pattern of an OWASP category.
fn owasp_pattern_exec(cat: &Json, now: &str) -> (r: Json)
    ensures
        r@ == owasp_pattern(cat@, now@),
{
    let code = chars_of(crate::json::get_str_or_empty(cat, "code").as_str());
    let id = stix_id("attack-pattern", &prefixed("owasp-", &code));
    let mut name = code.clone();
    append_str(&mut name, ":2021 ");
    append_chars(&mut name, &chars_of(crate::json::get_str_or_empty(cat, "name").as_str()));
    let name = trim_chars(&name);
    let mut ext_dflt = code.clone();
    append_str(&mut ext_dflt, ":2021");
    let ext = field_or_exec(cat, "id", Json::Str(string_of(&ext_dflt)));
    let url = field_or_exec(cat, "url", Json::Str(String::from_str(OWASP_SOURCE)));
    let url2 = field_or_exec(cat, "url", Json::Str(String::from_str(OWASP_SOURCE)));
    let mut r: Vec<(String, Json)> = Vec::new();
    r.push(sfield("source_name", "owasp"));
    r.push((String::from_str("external_id"), ext));
    r.push((String::from_str("url"), url2));
    let ghost rv = fview(r@);
    let refs = object_of(r);
    let mut items: Vec<Json> = Vec::new();
    items.push(refs);
    let ghost iv = jviews(items@);
    let arr = array_of(items);
    let mut f: Vec<(String, Json)> = Vec::new();
    f.push(sfield("type", "attack-pattern"));
    f.push(sfield("spec_version", "2.1"));
    f.push(sfield("id", id.as_str()));
    f.push(sfield("created", now));
    f.push(sfield("modified", now));
    f.push(cfield("name", &name));
    f.push((String::from_str("description"), url));
    f.push((String::from_str("external_references"), arr));
    let ghost want = owasp_pattern(cat@, now@)->Object_0;
    assert(rv =~= want[7].1->Array_0[0]->Object_0);
    assert(iv =~= want[7].1->Array_0);
    assert(fview(f@) =~= want);
    object_of(f)
}

/// The OWASP attack patterns of a list of categories.
fn owasp_patterns_exec(cats: &Vec<Json>, now: &str, out: &mut Vec<Json>)
    ensures
        jviews(final(out)@) == jviews(old(out)@) + owasp_patterns(jviews(cats@), now@),
{
    let ghost o = jviews(out@);
    let ghost cv = jviews(cats@);
    let mut i: usize = 0;
    assert(cv.take(0) =~= Seq::<JsonV>::empty());
    assert(o + Seq::<JsonV>::empty() =~= o);
    while i < cats.len()
        invariant
            i <= cats@.len() == cv.len(),
            cv == jviews(cats@),
            jviews(out@) == o + owasp_patterns(cv.take(i as int), now@),
        decreases cats.len() - i,
    {
        assert(cv.take(i + 1).drop_last() =~= cv.take(i as int));
        assert(cv.take(i + 1).last() == cats@[i as int]@);
        let code = chars_of(crate::json::get_str_or_empty(&cats[i], "code").as_str());
        if code.len() > 0 && !crate::text::eq_chars(&code, &chars_of("none")) {
            let ghost prev = out@;
            out.push(owasp_pattern_exec(&cats[i], now));
            assert(jviews(out@) =~= jviews(prev).push(out@.last()@));
        }
        i = i + 1;
    }
    assert(cv.take(cats.len() as int) =~= cv);
}

/// The id of a technique entry of the payload (empty unless a string).
pub open spec fn tech_id(t: JsonV) -> Seq<char> {
    str_or_empty(t, "id"@)
}

/// The URL of a technique entry: its own, else the catalog's, else empty.
pub open spec fn tech_url(t: JsonV) -> Seq<char> {
    match jstr(jget(t, "url"@)) {
        Some(u) => u,
        None => meta_in(attack_table(), tech_id(t)).2,
    }
}

/// The attack pattern of a technique entry of the payload.
pub open spec fn attack_pattern(t: JsonV, now: Seq<char>) -> JsonV {
    let tid = tech_id(t);
    JsonV::Object(
        seq![
            ("type"@, js("attack-pattern"@)),
            ("spec_version"@, js("2.1"@)),
            ("id"@, js(stix_id_spec("attack-pattern"@, "mitre-"@ + tid))),
            ("created"@, js(now)),
            ("modified"@, js(now)),
            ("name"@, field_or(t, "name"@, js(tid))),
            ("external_references"@, JsonV::Array(seq![JsonV::Object(seq![
                ("source_name"@, js("mitre-attack"@)),
                ("external_id"@, js(tid)),
                ("url"@, js(tech_url(t))),
            ])])),
        ],
    )
}

/// Whether some entry of `ts` has technique id `id`.
pub open spec fn seen_in(ts: Seq<JsonV>, id: Seq<char>) -> bool {
    exists|k: int| 0 <= k < ts.len() && #[trigger] tech_id(ts[k]) == id
}

/// The attack patterns of the payload's technique entries, in order: one per distinct
/// non-empty id, at its first entry.
pub open spec fn attack_patterns(ts: Seq<JsonV>, now: Seq<char>) -> Seq<JsonV>
    decreases ts.len(),
{
    if ts.len() == 0 {
        Seq::empty()
    } else {
        let prev = attack_patterns(ts.drop_last(), now);
        let tid = tech_id(ts.last());
        if tid.len() == 0 || seen_in(ts.drop_last(), tid) {
            prev
        } else {
            prev.push(attack_pattern(ts.last(), now))
        }
    }
}

/// The catalog URL of a technique (empty for an unknown one).
fn catalog_url(t: &Vec<char>) -> (r: String)
    ensures
        r@ == meta_in(attack_table(), t@).2,
{
    let rows = crate::correlate::attack_rows();
    let ghost tb = attack_table();
    let mut i: usize = 0;
    assert(tb.subrange(0, tb.len() as int) =~= tb);
    while i < rows.len()
        invariant
            i <= rows@.len() == tb.len(),
            tb == attack_table(),
            forall|k: int| 0 <= k < rows@.len() ==> (#[trigger] rows@[k]).0@ == tb[k].0 && rows@[k].3@ == tb[k].3,
            meta_in(tb, t@) == meta_in(tb.subrange(i as int, tb.len() as int), t@),
        decreases rows.len() - i,
    {
        let ghost rest = tb.subrange(i as int, tb.len() as int);
        assert(rest[0] == tb[i as int]);
        assert(rest.drop_first() =~= tb.subrange(i + 1, tb.len() as int));
        if crate::text::eq_chars(&chars_of(rows[i].0), t) {
            return String::from_str(rows[i].3);
        }
        i = i + 1;
    }
    String::new()
}

/// The attack pattern of a technique entry.
fn attack_pattern_exec(t: &Json, now: &str) -> (r: Json)
    ensures
        r@ == attack_pattern(t@, now@),
{
    let tid = chars_of(crate::json::get_str_or_empty(t, "id").as_str());
    let id = stix_id("attack-pattern", &prefixed("mitre-", &tid));
    let url: String = match crate::json::get_str(t, "url") {
        Some(u) => u.clone(),
        None => catalog_url(&tid),
    };
    let name = field_or_exec(t, "name", Json::Str(string_of(&tid)));
    let mut r: Vec<(String, Json)> = Vec::new();
    r.push(sfield("source_name", "mitre-attack"));
    r.push(cfield("external_id", &tid));
    r.push(sfield("url", url.as_str()));
    let ghost rv = fview(r@);
    let refs = object_of(r);
    let mut items: Vec<Json> = Vec::new();
    items.push(refs);
    let ghost iv = jviews(items@);
    let arr = array_of(items);
    let mut f: Vec<(String, Json)> = Vec::new();
    f.push(sfield("type", "attack-pattern"));
    f.push(sfield("spec_version", "2.1"));
    f.push(sfield("id", id.as_str()));
    f.push(sfield("created", now));
    f.push(sfield("modified", now));
    f.push((String::from_str("name"), name));
    f.push((String::from_str("external_references"), arr));
    let ghost want = attack_pattern(t@, now@)->Object_0;
    assert(rv =~= want[6].1->Array_0[0]->Object_0);
    assert(iv =~= want[6].1->Array_0);
    assert(fview(f@) =~= want);
    object_of(f)
}

/// Whether an entry before index `i` of `ts` has technique id `id`.
fn seen_before(ts: &Vec<Json>, i: usize, id: &Vec<char>) -> (r: bool)
    requires
        i <= ts@.len(),
    ensures
        r == seen_in(jviews(ts@).take(i as int), id@),
{
    let ghost pv = jviews(ts@).take(i as int);
    let mut k: usize = 0;
    while k < i
        invariant
            k <= i <= ts@.len(),
            pv == jviews(ts@).take(i as int),
            forall|m: int| 0 <= m < k ==> tech_id(pv[m]) != id@,
        decreases i - k,
    {
        let other = chars_of(crate::json::get_str_or_empty(&ts[k], "id").as_str());
        assert(pv[k as int] == ts@[k as int]@);
        if crate::text::eq_chars(&other, id) {
            assert(tech_id(pv[k as int]) == id@);
            return true;
        }
        k = k + 1;
    }
    false
}

/// The ATT&CK attack patterns of a list of technique entries.
fn attack_patterns_exec(ts: &Vec<Json>, now: &str, out: &mut Vec<Json>)
    ensures
        jviews(final(out)@) == jviews(old(out)@) + attack_patterns(jviews(ts@), now@),
{
    let ghost o = jviews(out@);
    let ghost tv = jviews(ts@);
    let mut i: usize = 0;
    assert(tv.take(0) =~= Seq::<JsonV>::empty());
    assert(o + Seq::<JsonV>::empty() =~= o);
    while i < ts.len()
        invariant
            i <= ts@.len() == tv.len(),
            tv == jviews(ts@),
            jviews(out@) == o + attack_patterns(tv.take(i as int), now@),
        decreases ts.len() - i,
    {
        assert(tv.take(i + 1).drop_last() =~= tv.take(i as int));
        assert(tv.take(i + 1).last() == ts@[i as int]@);
        let tid = chars_of(crate::json::get_str_or_empty(&ts[i], "id").as_str());
        let seen = seen_before(ts, i, &tid);
        if tid.len() > 0 && !seen {
            let ghost prev = out@;
            out.push(attack_pattern_exec(&ts[i], now));
            assert(jviews(out@) =~= jviews(prev).push(out@.last()@));
        }
        i = i + 1;
    }
    assert(tv.take(ts.len() as int) =~= tv);
}

/// The seed of a finding's indicator id: `when|ip|scenario`.
pub open spec fn indicator_seed(f: JsonV) -> Seq<char> {
    str_or_empty(f, "when"@) + "|"@ + trim(str_or_empty(f, "ip"@)) + "|"@ + str_or_empty(f, "scenario"@)
}

/// The id of a finding's indicator.
pub open spec fn indicator_id(f: JsonV) -> Seq<char> {
    stix_id_spec("indicator"@, indicator_seed(f))
}

/// The techniques of a finding as text: its string items joined by commas, or `none`
/// where it has no list.
pub open spec fn attack_text(f: JsonV) -> Seq<char> {
    match jarr(jget(f, "attack"@)) {
        Some(items) => join_comma(strs_of(items)),
        None => "none"@,
    }
}

/// The name of a finding's indicator: its event name, else its address, else `waf-finding`.
pub open spec fn indicator_name(f: JsonV) -> Seq<char> {
    let scenario = str_or_empty(f, "scenario"@);
    let ip = trim(str_or_empty(f, "ip"@));
    if scenario.len() > 0 {
        scenario
    } else if ip.len() > 0 {
        ip
    } else {
        "waf-finding"@
    }
}

/// The STIX pattern of a finding: its source address, else its event name (`unknown` when
/// it has none).
pub open spec fn indicator_pattern(f: JsonV) -> Seq<char> {
    let scenario = str_or_empty(f, "scenario"@);
    let ip = trim(str_or_empty(f, "ip"@));
    if ip.len() > 0 {
        "[ipv4-addr:value = '"@ + ip + "']"@
    } else {
        "[x-waf-scenario:value = '"@ + (if scenario.len() > 0 { scenario } else { "unknown"@ }) + "']"@
    }
}

/// The indicator of a finding.
pub open spec fn indicator_spec(f: JsonV, now: Seq<char>) -> JsonV {
    JsonV::Object(
        seq![
            ("type"@, js("indicator"@)),
            ("spec_version"@, js("2.1"@)),
            ("id"@, js(indicator_id(f))),
            ("created"@, js(now)),
            ("modified"@, js(now)),
            ("name"@, js(indicator_name(f))),
            ("description"@, js("OWASP "@ + str_or(f, "owasp"@, "none"@) + " \u{b7} ATT&CK "@ + attack_text(f)
                + " \u{b7} confidence "@ + str_or(f, "confidence"@, "none"@))),
            ("indicator_types"@, JsonV::Array(seq![js("malicious-activity"@)])),
            ("pattern_type"@, js("stix"@)),
            ("pattern"@, js(indicator_pattern(f))),
            ("valid_from"@, js(now)),
        ],
    )
}

/// The relationship from a finding's indicator to the attack pattern of its OWASP category.
pub open spec fn relationship_spec(f: JsonV, now: Seq<char>) -> JsonV {
    let code = str_or_empty(f, "owasp"@);
    JsonV::Object(
        seq![
            ("type"@, js("relationship"@)),
            ("spec_version"@, js("2.1"@)),
            ("id"@, js(stix_id_spec("relationship"@, indicator_id(f) + code))),
            ("created"@, js(now)),
            ("modified"@, js(now)),
            ("relationship_type"@, js("indicates"@)),
            ("source_ref"@, js(indicator_id(f))),
            ("target_ref"@, js(stix_id_spec("attack-pattern"@, "owasp-"@ + code))),
        ],
    )
}

/// The STIX objects of one finding: its indicator, and the relationship to its OWASP
/// category when it names one (a non-empty code other than `none`).
pub open spec fn finding_objects(f: JsonV, now: Seq<char>) -> Seq<JsonV> {
    let code = str_or_empty(f, "owasp"@);
    if code.len() > 0 && code != "none"@ {
        seq![indicator_spec(f, now), relationship_spec(f, now)]
    } else {
        seq![indicator_spec(f, now)]
    }
}

/// The STIX objects of a list of findings, in order.
pub open spec fn all_finding_objects(fs: Seq<JsonV>, now: Seq<char>) -> Seq<JsonV>
    decreases fs.len(),
{
    if fs.len() == 0 {
        Seq::empty()
    } else {
        all_finding_objects(fs.drop_last(), now) + finding_objects(fs.last(), now)
    }
}

/// Strings joined by commas.
fn join_strings(v: &Vec<String>) -> (r: Vec<char>)
    ensures
        r@ == join_comma(crate::findings::sviews(v@)),
{
    let ghost sv = crate::findings::sviews(v@);
    let mut out: Vec<char> = Vec::new();
    let mut i: usize = 0;
    assert(sv.take(0) =~= Seq::<Seq<char>>::empty());
    while i < v.len()
        invariant
            i <= v@.len() == sv.len(),
            sv == crate::findings::sviews(v@),
            out@ == join_comma(sv.take(i as int)),
        decreases v.len() - i,
    {
        assert(sv.take(i + 1).drop_last() =~= sv.take(i as int));
        assert(sv.take(i + 1).last() == v@[i as int]@);
        if i > 0 {
            out.push(',');
        }
        append_chars(&mut out, &chars_of(v[i].as_str()));
        proof {
            if i == 0 {
                assert(sv.take(1) =~= seq![sv[0]]);
            }
        }
        i = i + 1;
    }
    assert(sv.take(v.len() as int) =~= sv);
    out
}

/// The techniques of a finding as text.
fn attack_text_exec(f: &Json) -> (r: Vec<char>)
    ensures
        r@ == attack_text(f@),
{
    let a = get(f, "attack");
    match a {
        Some(Json::Array(_)) => {
            let items = crate::findings::str_items_exec(a);
            join_strings(&items)
        },
        _ => chars_of("none"),
    }
}

/// The indicator of a finding.
fn indicator_exec(f: &Json, now: &str, id: &String) -> (r: Json)
    requires
        id@ == indicator_id(f@),
    ensures
        r@ == indicator_spec(f@, now@),
{
    let scenario = chars_of(crate::json::get_str_or_empty(f, "scenario").as_str());
    let ip = trim_chars(&chars_of(crate::json::get_str_or_empty(f, "ip").as_str()));
    let name = if scenario.len() > 0 {
        scenario.clone()
    } else if ip.len() > 0 {
        ip.clone()
    } else {
        chars_of("waf-finding")
    };
    let pattern = if ip.len() > 0 {
        let mut p = chars_of("[ipv4-addr:value = '");
        append_chars(&mut p, &ip);
        append_str(&mut p, "']");
        p
    } else {
        let mut p = chars_of("[x-waf-scenario:value = '");
        if scenario.len() > 0 {
            append_chars(&mut p, &scenario);
        } else {
            append_str(&mut p, "unknown");
        }
        append_str(&mut p, "']");
        p
    };
    let mut desc = chars_of("OWASP ");
    append_chars(&mut desc, &crate::json::get_str_or(f, "owasp", "none"));
    append_str(&mut desc, " \u{b7} ATT&CK ");
    append_chars(&mut desc, &attack_text_exec(f));
    append_str(&mut desc, " \u{b7} confidence ");
    append_chars(&mut desc, &crate::json::get_str_or(f, "confidence", "none"));
    let mut kinds: Vec<Json> = Vec::new();
    kinds.push(Json::Str(String::from_str("malicious-activity")));
    let ghost kv = jviews(kinds@);
    let kinds = array_of(kinds);
    let mut o: Vec<(String, Json)> = Vec::new();
    o.push(sfield("type", "indicator"));
    o.push(sfield("spec_version", "2.1"));
    o.push(sfield("id", id.as_str()));
    o.push(sfield("created", now));
    o.push(sfield("modified", now));
    o.push(cfield("name", &name));
    o.push(cfield("description", &desc));
    o.push((String::from_str("indicator_types"), kinds));
    o.push(sfield("pattern_type", "stix"));
    o.push(cfield("pattern", &pattern));
    o.push(sfield("valid_from", now));
    let ghost want = indicator_spec(f@, now@)->Object_0;
    assert(kv =~= want[7].1->Array_0);
    assert(fview(o@) =~= want);
    object_of(o)
}

/// The relationship of a finding's indicator to its OWASP category.
fn relationship_exec(f: &Json, now: &str, id: &String, code: &Vec<char>) -> (r: Json)
    requires
        id@ == indicator_id(f@),
        code@ == str_or_empty(f@, "owasp"@),
    ensures
        r@ == relationship_spec(f@, now@),
{
    let idc = chars_of(id.as_str());
    let mut seed = idc.clone();
    append_chars(&mut seed, code);
    let rid = stix_id("relationship", &seed);
    let target = stix_id("attack-pattern", &prefixed("owasp-", code));
    let mut o: Vec<(String, Json)> = Vec::new();
    o.push(sfield("type", "relationship"));
    o.push(sfield("spec_version", "2.1"));
    o.push(sfield("id", rid.as_str()));
    o.push(sfield("created", now));
    o.push(sfield("modified", now));
    o.push(sfield("relationship_type", "indicates"));
    o.push(sfield("source_ref", id.as_str()));
    o.push(sfield("target_ref", target.as_str()));
    assert(fview(o@) =~= relationship_spec(f@, now@)->Object_0);
    object_of(o)
}

/// Appends the STIX objects of one finding.
fn push_finding_objects(out: &mut Vec<Json>, f: &Json, now: &str)
    ensures
        jviews(final(out)@) == jviews(old(out)@) + finding_objects(f@, now@),
{
    let ghost o = jviews(out@);
    let mut seed = chars_of(crate::json::get_str_or_empty(f, "when").as_str());
    append_str(&mut seed, "|");
    append_chars(&mut seed, &trim_chars(&chars_of(crate::json::get_str_or_empty(f, "ip").as_str())));
    append_str(&mut seed, "|");
    append_chars(&mut seed, &chars_of(crate::json::get_str_or_empty(f, "scenario").as_str()));
    let id = stix_id("indicator", &seed);
    out.push(indicator_exec(f, now, &id));
    let code = chars_of(crate::json::get_str_or_empty(f, "owasp").as_str());
    if code.len() > 0 && !crate::text::eq_chars(&code, &chars_of("none")) {
        out.push(relationship_exec(f, now, &id, &code));
    }
    assert(jviews(out@) =~= o + finding_objects(f@, now@));
}

/// The STIX objects of a list of findings.
fn all_finding_objects_exec(fs: &Vec<Json>, now: &str, out: &mut Vec<Json>)
    ensures
        jviews(final(out)@) == jviews(old(out)@) + all_finding_objects(jviews(fs@), now@),
{
    let ghost o = jviews(out@);
    let ghost fv = jviews(fs@);
    let mut i: usize = 0;
    assert(fv.take(0) =~= Seq::<JsonV>::empty());
    assert(o + Seq::<JsonV>::empty() =~= o);
    while i < fs.len()
        invariant
            i <= fs@.len() == fv.len(),
            fv == jviews(fs@),
            jviews(out@) == o + all_finding_objects(fv.take(i as int), now@),
        decreases fs.len() - i,
    {
        assert(fv.take(i + 1).drop_last() =~= fv.take(i as int));
        assert(fv.take(i + 1).last() == fs@[i as int]@);
        push_finding_objects(out, &fs[i], now);
        assert(jviews(out@) =~= o + all_finding_objects(fv.take(i + 1), now@));
        i = i + 1;
    }
    assert(fv.take(fs.len() as int) =~= fv);
}

/// The array at `key` of a payload (empty where there is no such array).
pub open spec fn list_of(p: JsonV, key: Seq<char>) -> Seq<JsonV> {
    match jarr(jget(p, key)) {
        Some(xs) => xs,
        None => Seq::empty(),
    }
}

/// The array at `key` of a payload.
fn list_exec(p: &Json, key: &str) -> (r: Vec<Json>)
    ensures
        jviews(r@) == list_of(p@, key@),
{
    let v = get(p, key);
    match v {
        Some(Json::Array(xs)) => {
            proof {
                crate::json::lemma_array_view(*v->Some_0);
            }
            let r = crate::json::clone_all(xs);
            assert(jviews(r@) =~= list_of(p@, key@));
            r
        },
        _ => {
            let r: Vec<Json> = Vec::new();
            assert(jviews(r@) =~= Seq::<JsonV>::empty());
            r
        },
    }
}

/// The findings of a payload as a JSON value (an empty array where absent).
pub open spec fn findings_value(p: JsonV) -> JsonV {
    field_or(p, "findings"@, JsonV::Array(Seq::empty()))
}

/// The seed of the bundle id: the compact JSON text of the findings, cut after 800 bytes.
pub open spec fn bundle_seed(p: JsonV) -> Seq<char> {
    byte_prefix(jtext(findings_value(p)), 800)
}

/// The objects of the STIX bundle of a payload at time `now`: the identity, the OWASP and
/// ATT&CK attack patterns, and the objects of each finding.
pub open spec fn stix_objects(p: JsonV, now: Seq<char>) -> Seq<JsonV> {
    seq![identity_spec(now)] + owasp_patterns(list_of(p, "owasp"@), now) + attack_patterns(
        list_of(p, "attack"@),
        now,
    ) + all_finding_objects(list_of(p, "findings"@), now)
}

/// The STIX bundle of a correlation payload at time `now`.
pub open spec fn stix_spec(p: JsonV, now: Seq<char>) -> JsonV {
    JsonV::Object(
        seq![
            ("type"@, js("bundle"@)),
            ("id"@, js(stix_id_spec("bundle"@, bundle_seed(p)))),
            ("objects"@, JsonV::Array(stix_objects(p, now))),
        ],
    )
}

proof fn lemma_utf8_size_nonneg(s: Seq<char>)
    ensures
        utf8_size(s) >= 0,
    decreases s.len(),
{
    if s.len() > 0 {
        lemma_utf8_size_nonneg(s.drop_first());
    }
}

/// The UTF-8 size of `v` when it is at most `cap`, else `cap + 1`.
fn utf8_size_upto(v: &Vec<char>, cap: usize) -> (r: usize)
    requires
        cap <= 1_000_000,
    ensures
        r <= cap + 1,
        r <= cap ==> r as int == utf8_size(v@),
        r == cap + 1 ==> utf8_size(v@) > cap,
{
    let mut acc: usize = 0;
    let mut i: usize = 0;
    assert(v@.skip(0) =~= v@);
    while i < v.len()
        invariant
            i <= v@.len(),
            acc <= cap,
            cap <= 1_000_000,
            utf8_size(v@) == acc + utf8_size(v@.skip(i as int)),
        decreases v.len() - i,
    {
        let ghost rest = v@.skip(i as int);
        assert(rest[0] == v@[i as int]);
        assert(rest.drop_first() =~= v@.skip(i + 1));
        acc = acc + utf8_len_exec(v[i]);
        i = i + 1;
        if acc > cap {
            proof {
                lemma_utf8_size_nonneg(v@.skip(i as int));
            }
            return cap + 1;
        }
    }
    assert(v@.skip(i as int) =~= Seq::<char>::empty());
    acc
}

/// Whether the bundle seed of `payload` can be cut after 800 bytes of its findings' JSON
/// text without splitting a character: what [`stix_bundle`] requires.
pub fn stix_seed_cuts_cleanly(payload: &Json) -> (r: bool)
    ensures
        r == cuts_cleanly(jtext(findings_value(payload@)), 800),
{
    let fv = field_or_exec(payload, "findings", array_of(Vec::new()));
    proof {
        assert(jviews(Seq::<Json>::empty()) =~= Seq::<JsonV>::empty());
    }
    let text = chars_of(crate::json::json_text(&fv).as_str());
    let total = utf8_size_upto(&text, 800);
    if total <= 800 {
        return true;
    }
    let prefix = byte_prefix_exec(&text, 800);
    let p = utf8_size_upto(&prefix, 800);
    p == 800
}

/// The STIX 2.1 bundle of a correlation payload, stamped `now` (`YYYY-MM-DDTHH:MM:SS.000Z`):
/// the console's identity; an attack pattern per OWASP category with a code; one per
/// distinct ATT&CK technique; per finding an indicator and, when it names an OWASP
/// category, a relationship to it. Secret-looking keys are scrubbed. The bundle id is
/// derived from the first 800 bytes of the findings' JSON text, which must not cut a
/// character in two.
pub fn stix_bundle_at(payload: &Json, now: &str) -> (r: Json)
    requires
        cuts_cleanly(jtext(findings_value(payload@)), 800),
    ensures
        r@ == scrub_spec(stix_spec(payload@, now@)),
{
    let mut objects: Vec<Json> = Vec::new();
    objects.push(identity_exec(now));
    let ghost first = jviews(objects@);
    assert(first =~= seq![identity_spec(now@)]);
    owasp_patterns_exec(&list_exec(payload, "owasp"), now, &mut objects);
    attack_patterns_exec(&list_exec(payload, "attack"), now, &mut objects);
    all_finding_objects_exec(&list_exec(payload, "findings"), now, &mut objects);
    let fv = field_or_exec(payload, "findings", array_of(Vec::new()));
    proof {
        assert(jviews(Seq::<Json>::empty()) =~= Seq::<JsonV>::empty());
    }
    let text = chars_of(crate::json::json_text(&fv).as_str());
    let seed = byte_prefix_exec(&text, 800);
    let id = stix_id("bundle", &seed);
    let ghost ov = jviews(objects@);
    let arr = array_of(objects);
    let mut b: Vec<(String, Json)> = Vec::new();
    b.push(sfield("type", "bundle"));
    b.push(sfield("id", id.as_str()));
    b.push((String::from_str("objects"), arr));
    assert(fview(b@) =~= stix_spec(payload@, now@)->Object_0);
    scrub(object_of(b))
}

/// The STIX 2.1 bundle of a correlation payload, stamped with the current UTC time.
pub fn stix_bundle(payload: &Json) -> (r: Json)
    requires
        cuts_cleanly(jtext(findings_value(payload@)), 800),
    ensures
        exists|now: Seq<char>| crate::fresh::clock_shaped(now, crate::fresh::stix_tail()) && r@ == #[trigger] scrub_spec(stix_spec(payload@, now)),
{
    let now = crate::fresh::utc_stix();
    let r = stix_bundle_at(payload, now.as_str());
    assert(r@ == scrub_spec(stix_spec(payload@, now@)));
    r
}

} // verus!

verus! {

/// Whether a STIX object's id is `<its type>--…`.
pub open spec fn id_typed(o: JsonV) -> bool {
    match (jstr(jget(o, "type"@)), jstr(jget(o, "id"@))) {
        (Some(t), Some(i)) => crate::text::has_prefix(i, t + "--"@),
        _ => false,
    }
}

proof fn lemma_stix_id_prefix(kind: Seq<char>, seed: Seq<char>)
    ensures
        crate::text::has_prefix(stix_id_spec(kind, seed), kind + "--"@),
{
    let i = stix_id_spec(kind, seed);
    let n = kind + "--"@;
    assert(i.subrange(0, n.len() as int) =~= n);
}

proof fn lemma_head_typed(o: JsonV, t: Seq<char>, i: Seq<char>)
    requires
        o is Object,
        o->Object_0.len() >= 3,
        o->Object_0[0] == ("type"@, js(t)),
        o->Object_0[1].0 == "spec_version"@,
        o->Object_0[2] == ("id"@, js(i)),
        crate::text::has_prefix(i, t + "--"@),
    ensures
        id_typed(o),
{
    reveal_strlit("type");
    reveal_strlit("id");
    reveal_strlit("spec_version");
    let f = o->Object_0;
    reveal_with_fuel(crate::json::vget, 3);
    assert(f.drop_first()[0] == f[1]);
    assert(f.drop_first().drop_first()[0] == f[2]);
    assert("type"@.len() == 4 && "id"@.len() == 2 && "spec_version"@.len() == 12);
    assert("type"@ != "id"@);
    assert("spec_version"@ != "id"@);
    assert(jget(o, "type"@) == Some(js(t)));
    assert(jget(o, "id"@) == Some(js(i)));
}

proof fn lemma_owasp_patterns_typed(cats: Seq<JsonV>, now: Seq<char>)
    ensures
        forall|k: int| 0 <= k < owasp_patterns(cats, now).len() ==> id_typed(#[trigger] owasp_patterns(cats, now)[k]),
    decreases cats.len(),
{
    reveal_strlit("type");
    reveal_strlit("id");
    reveal_strlit("spec_version");
    if cats.len() > 0 {
        lemma_owasp_patterns_typed(cats.drop_last(), now);
        let c = cats.last();
        lemma_stix_id_prefix("attack-pattern"@, "owasp-"@ + str_or_empty(c, "code"@));
        lemma_head_typed(owasp_pattern(c, now), "attack-pattern"@, stix_id_spec("attack-pattern"@, "owasp-"@ + str_or_empty(c, "code"@)));
        let prev = owasp_patterns(cats.drop_last(), now);
        assert forall|k: int| 0 <= k < owasp_patterns(cats, now).len() implies id_typed(
            #[trigger] owasp_patterns(cats, now)[k],
        ) by {
            if k < prev.len() {
                assert(owasp_patterns(cats, now)[k] == prev[k]);
            }
        }
    }
}

proof fn lemma_attack_patterns_typed(ts: Seq<JsonV>, now: Seq<char>)
    ensures
        forall|k: int| 0 <= k < attack_patterns(ts, now).len() ==> id_typed(#[trigger] attack_patterns(ts, now)[k]),
    decreases ts.len(),
{
    reveal_strlit("type");
    reveal_strlit("id");
    reveal_strlit("spec_version");
    if ts.len() > 0 {
        lemma_attack_patterns_typed(ts.drop_last(), now);
        let t = ts.last();
        lemma_stix_id_prefix("attack-pattern"@, "mitre-"@ + tech_id(t));
        lemma_head_typed(attack_pattern(t, now), "attack-pattern"@, stix_id_spec("attack-pattern"@, "mitre-"@ + tech_id(t)));
        let prev = attack_patterns(ts.drop_last(), now);
        assert forall|k: int| 0 <= k < attack_patterns(ts, now).len() implies id_typed(
            #[trigger] attack_patterns(ts, now)[k],
        ) by {
            if k < prev.len() {
                assert(attack_patterns(ts, now)[k] == prev[k]);
            }
        }
    }
}

proof fn lemma_finding_objects_typed(fs: Seq<JsonV>, now: Seq<char>)
    ensures
        forall|k: int|
            0 <= k < all_finding_objects(fs, now).len() ==> id_typed(#[trigger] all_finding_objects(fs, now)[k]),
    decreases fs.len(),
{
    reveal_strlit("type");
    reveal_strlit("id");
    reveal_strlit("spec_version");
    if fs.len() > 0 {
        lemma_finding_objects_typed(fs.drop_last(), now);
        let f = fs.last();
        lemma_stix_id_prefix("indicator"@, indicator_seed(f));
        lemma_stix_id_prefix("relationship"@, indicator_id(f) + str_or_empty(f, "owasp"@));
        lemma_head_typed(indicator_spec(f, now), "indicator"@, indicator_id(f));
        lemma_head_typed(
            relationship_spec(f, now),
            "relationship"@,
            stix_id_spec("relationship"@, indicator_id(f) + str_or_empty(f, "owasp"@)),
        );
        let prev = all_finding_objects(fs.drop_last(), now);
        let mine = finding_objects(f, now);
        assert forall|k: int| 0 <= k < all_finding_objects(fs, now).len() implies id_typed(
            #[trigger] all_finding_objects(fs, now)[k],
        ) by {
            if k >= prev.len() {
                assert(all_finding_objects(fs, now)[k] == mine[k - prev.len()]);
            } else {
                assert(all_finding_objects(fs, now)[k] == prev[k]);
            }
        }
    }
}

/// Every object of a STIX bundle carries an id that begins with its own type and `--`
/// (identity, attack patterns, indicators and relationships alike), as STIX 2.1 requires.
pub proof fn law_stix_ids_typed(p: JsonV, now: Seq<char>)
    ensures
        forall|k: int| 0 <= k < stix_objects(p, now).len() ==> id_typed(#[trigger] stix_objects(p, now)[k]),
{
    reveal_strlit("type");
    reveal_strlit("id");
    reveal_strlit("spec_version");
    lemma_stix_id_prefix("identity"@, "waf-console"@);
    lemma_head_typed(identity_spec(now), "identity"@, stix_id_spec("identity"@, "waf-console"@));
    let a = seq![identity_spec(now)];
    let b = owasp_patterns(list_of(p, "owasp"@), now);
    let c = attack_patterns(list_of(p, "attack"@), now);
    let d = all_finding_objects(list_of(p, "findings"@), now);
    lemma_owasp_patterns_typed(list_of(p, "owasp"@), now);
    lemma_attack_patterns_typed(list_of(p, "attack"@), now);
    lemma_finding_objects_typed(list_of(p, "findings"@), now);
    let objs = stix_objects(p, now);
    assert(objs == a + b + c + d);
    assert forall|k: int| 0 <= k < objs.len() implies id_typed(#[trigger] objs[k]) by {
        if k < 1 {
        } else if k < 1 + b.len() {
            assert(objs[k] == b[k - 1]);
        } else if k < 1 + b.len() + c.len() {
            assert(objs[k] == c[k - 1 - b.len()]);
        } else {
            assert(objs[k] == d[k - 1 - b.len() - c.len()]);
        }
    }
}

} // verus!

verus! {

proof fn lemma_head(o: JsonV, t: Seq<char>, i: Seq<char>)
    requires
        o is Object,
        o->Object_0.len() >= 3,
        o->Object_0[0] == ("type"@, js(t)),
        o->Object_0[1].0 == "spec_version"@,
        o->Object_0[2] == ("id"@, js(i)),
    ensures
        jget(o, "type"@) == Some(js(t)),
        jget(o, "id"@) == Some(js(i)),
{
    reveal_strlit("type");
    reveal_strlit("id");
    reveal_strlit("spec_version");
    let f = o->Object_0;
    reveal_with_fuel(crate::json::vget, 3);
    assert(f.drop_first()[0] == f[1]);
    assert(f.drop_first().drop_first()[0] == f[2]);
    assert("type"@.len() == 4 && "id"@.len() == 2 && "spec_version"@.len() == 12);
    assert("type"@ != "id"@);
    assert("spec_version"@ != "id"@);
}

/// How many of `objs` have type `t`.
pub open spec fn count_type(objs: Seq<JsonV>, t: Seq<char>) -> nat
    decreases objs.len(),
{
    if objs.len() == 0 {
        0
    } else {
        count_type(objs.drop_last(), t) + if jget(objs.last(), "type"@) == Some(js(t)) {
            1nat
        } else {
            0nat
        }
    }
}

/// The ids of `objs`, in order.
pub open spec fn ids_of(objs: Seq<JsonV>) -> Seq<Option<JsonV>> {
    objs.map_values(|o: JsonV| jget(o, "id"@))
}

/// How many findings name an OWASP category (a code other than empty or `none`).
pub open spec fn owasp_named(fs: Seq<JsonV>) -> nat
    decreases fs.len(),
{
    if fs.len() == 0 {
        0
    } else {
        let code = str_or_empty(fs.last(), "owasp"@);
        owasp_named(fs.drop_last()) + if code.len() > 0 && code != "none"@ {
            1nat
        } else {
            0nat
        }
    }
}

proof fn lemma_count_concat(a: Seq<JsonV>, b: Seq<JsonV>, t: Seq<char>)
    ensures
        count_type(a + b, t) == count_type(a, t) + count_type(b, t),
    decreases b.len(),
{
    if b.len() > 0 {
        lemma_count_concat(a, b.drop_last(), t);
        assert((a + b).drop_last() =~= a + b.drop_last());
        assert((a + b).last() == b.last());
    } else {
        assert(a + b =~= a);
    }
}

proof fn lemma_kinds_differ()
    ensures
        "identity"@ != "indicator"@,
        "identity"@ != "relationship"@,
        "attack-pattern"@ != "indicator"@,
        "attack-pattern"@ != "relationship"@,
        "indicator"@ != "relationship"@,
{
    reveal_strlit("identity");
    reveal_strlit("indicator");
    reveal_strlit("relationship");
    reveal_strlit("attack-pattern");
    assert("identity"@.len() == 8);
    assert("indicator"@.len() == 9);
    assert("relationship"@.len() == 12);
    assert("attack-pattern"@.len() == 14);
}

proof fn lemma_owasp_patterns_facts(cats: Seq<JsonV>, n1: Seq<char>, n2: Seq<char>)
    ensures
        count_type(owasp_patterns(cats, n1), "indicator"@) == 0,
        count_type(owasp_patterns(cats, n1), "relationship"@) == 0,
        ids_of(owasp_patterns(cats, n1)) == ids_of(owasp_patterns(cats, n2)),
    decreases cats.len(),
{
    reveal_with_fuel(count_type, 3);
    if cats.len() > 0 {
        lemma_owasp_patterns_facts(cats.drop_last(), n1, n2);
        let c = cats.last();
        let id = stix_id_spec("attack-pattern"@, "owasp-"@ + str_or_empty(c, "code"@));
        lemma_head(owasp_pattern(c, n1), "attack-pattern"@, id);
        lemma_head(owasp_pattern(c, n2), "attack-pattern"@, id);
        lemma_kinds_differ();
        let p1 = owasp_patterns(cats.drop_last(), n1);
        let p2 = owasp_patterns(cats.drop_last(), n2);
        if owasp_kept(c) {
            assert(p1.push(owasp_pattern(c, n1)).drop_last() =~= p1);
            assert(p1.push(owasp_pattern(c, n1)).last() == owasp_pattern(c, n1));
            assert(ids_of(p1.push(owasp_pattern(c, n1))) =~= ids_of(p1).push(jget(owasp_pattern(c, n1), "id"@)));
            assert(ids_of(p2.push(owasp_pattern(c, n2))) =~= ids_of(p2).push(jget(owasp_pattern(c, n2), "id"@)));
        }
    }
}

proof fn lemma_attack_patterns_facts(ts: Seq<JsonV>, n1: Seq<char>, n2: Seq<char>)
    ensures
        count_type(attack_patterns(ts, n1), "indicator"@) == 0,
        count_type(attack_patterns(ts, n1), "relationship"@) == 0,
        ids_of(attack_patterns(ts, n1)) == ids_of(attack_patterns(ts, n2)),
    decreases ts.len(),
{
    reveal_with_fuel(count_type, 3);
    if ts.len() > 0 {
        lemma_attack_patterns_facts(ts.drop_last(), n1, n2);
        let t = ts.last();
        let id = stix_id_spec("attack-pattern"@, "mitre-"@ + tech_id(t));
        lemma_head(attack_pattern(t, n1), "attack-pattern"@, id);
        lemma_head(attack_pattern(t, n2), "attack-pattern"@, id);
        lemma_kinds_differ();
        let p1 = attack_patterns(ts.drop_last(), n1);
        let p2 = attack_patterns(ts.drop_last(), n2);
        let tid = tech_id(t);
        if !(tid.len() == 0 || seen_in(ts.drop_last(), tid)) {
            assert(p1.push(attack_pattern(t, n1)).drop_last() =~= p1);
            assert(p1.push(attack_pattern(t, n1)).last() == attack_pattern(t, n1));
            assert(ids_of(p1.push(attack_pattern(t, n1))) =~= ids_of(p1).push(jget(attack_pattern(t, n1), "id"@)));
            assert(ids_of(p2.push(attack_pattern(t, n2))) =~= ids_of(p2).push(jget(attack_pattern(t, n2), "id"@)));
        }
    }
}

proof fn lemma_finding_objects_facts(fs: Seq<JsonV>, n1: Seq<char>, n2: Seq<char>)
    ensures
        count_type(all_finding_objects(fs, n1), "indicator"@) == fs.len(),
        count_type(all_finding_objects(fs, n1), "relationship"@) == owasp_named(fs),
        ids_of(all_finding_objects(fs, n1)) == ids_of(all_finding_objects(fs, n2)),
    decreases fs.len(),
{
    reveal_with_fuel(count_type, 3);
    if fs.len() > 0 {
        lemma_finding_objects_facts(fs.drop_last(), n1, n2);
        let f = fs.last();
        lemma_kinds_differ();
        let rid = stix_id_spec("relationship"@, indicator_id(f) + str_or_empty(f, "owasp"@));
        lemma_head(indicator_spec(f, n1), "indicator"@, indicator_id(f));
        lemma_head(indicator_spec(f, n2), "indicator"@, indicator_id(f));
        lemma_head(relationship_spec(f, n1), "relationship"@, rid);
        lemma_head(relationship_spec(f, n2), "relationship"@, rid);
        let p1 = all_finding_objects(fs.drop_last(), n1);
        let p2 = all_finding_objects(fs.drop_last(), n2);
        let m1 = finding_objects(f, n1);
        let m2 = finding_objects(f, n2);
        lemma_count_concat(p1, m1, "indicator"@);
        lemma_count_concat(p1, m1, "relationship"@);
        let code = str_or_empty(f, "owasp"@);
        let one = seq![indicator_spec(f, n1)];
        assert(one.drop_last() =~= Seq::<JsonV>::empty());
        assert(one.last() == indicator_spec(f, n1));
        assert(count_type(one, "indicator"@) == 1);
        assert(count_type(one, "relationship"@) == 0);
        if code.len() > 0 && code != "none"@ {
            assert(m1.drop_last() =~= one);
            assert(m1.last() == relationship_spec(f, n1));
            assert(count_type(m1, "indicator"@) == 1);
            assert(count_type(m1, "relationship"@) == 1);
        } else {
            assert(m1 == one);
        }
        assert(all_finding_objects(fs, n1) == p1 + m1);
        assert(owasp_named(fs) == owasp_named(fs.drop_last()) + if code.len() > 0 && code != "none"@ { 1nat } else { 0nat });
        assert(ids_of(p1 + m1) =~= ids_of(p1) + ids_of(m1));
        assert(ids_of(p2 + m2) =~= ids_of(p2) + ids_of(m2));
        assert(ids_of(m1) =~= ids_of(m2));
    }
}

/// What a STIX bundle holds: the console's identity first, one indicator per finding, and
/// one relationship per finding that names an OWASP category.
pub proof fn law_stix_counts(p: JsonV, now: Seq<char>)
    ensures
        stix_objects(p, now)[0] == identity_spec(now),
        count_type(stix_objects(p, now), "indicator"@) == list_of(p, "findings"@).len(),
        count_type(stix_objects(p, now), "relationship"@) == owasp_named(list_of(p, "findings"@)),
{
    let a = seq![identity_spec(now)];
    let b = owasp_patterns(list_of(p, "owasp"@), now);
    let c = attack_patterns(list_of(p, "attack"@), now);
    let d = all_finding_objects(list_of(p, "findings"@), now);
    lemma_owasp_patterns_facts(list_of(p, "owasp"@), now, now);
    lemma_attack_patterns_facts(list_of(p, "attack"@), now, now);
    lemma_finding_objects_facts(list_of(p, "findings"@), now, now);
    lemma_kinds_differ();
    lemma_head(identity_spec(now), "identity"@, stix_id_spec("identity"@, "waf-console"@));
    reveal_with_fuel(count_type, 2);
    assert(a.drop_last() =~= Seq::<JsonV>::empty());
    assert(a.last() == identity_spec(now));
    assert(count_type(a, "indicator"@) == 0);
    assert(count_type(a, "relationship"@) == 0);
    assert(stix_objects(p, now) == a + b + c + d);
    lemma_count_concat(a, b, "indicator"@);
    lemma_count_concat(a + b, c, "indicator"@);
    lemma_count_concat(a + b + c, d, "indicator"@);
    lemma_count_concat(a, b, "relationship"@);
    lemma_count_concat(a + b, c, "relationship"@);
    lemma_count_concat(a + b + c, d, "relationship"@);
}

/// The ids of a STIX bundle do not depend on when it is made: two bundles of one payload
/// carry the same bundle id and the same object ids, in the same order.
pub proof fn law_stix_ids_stable(p: JsonV, now1: Seq<char>, now2: Seq<char>)
    ensures
        jget(stix_spec(p, now1), "id"@) == jget(stix_spec(p, now2), "id"@),
        ids_of(stix_objects(p, now1)) == ids_of(stix_objects(p, now2)),
{
    lemma_owasp_patterns_facts(list_of(p, "owasp"@), now1, now2);
    lemma_attack_patterns_facts(list_of(p, "attack"@), now1, now2);
    lemma_finding_objects_facts(list_of(p, "findings"@), now1, now2);
    let id = stix_id_spec("identity"@, "waf-console"@);
    lemma_head(identity_spec(now1), "identity"@, id);
    lemma_head(identity_spec(now2), "identity"@, id);
    let o1 = stix_objects(p, now1);
    let o2 = stix_objects(p, now2);
    let b1 = owasp_patterns(list_of(p, "owasp"@), now1);
    let c1 = attack_patterns(list_of(p, "attack"@), now1);
    let d1 = all_finding_objects(list_of(p, "findings"@), now1);
    let b2 = owasp_patterns(list_of(p, "owasp"@), now2);
    let c2 = attack_patterns(list_of(p, "attack"@), now2);
    let d2 = all_finding_objects(list_of(p, "findings"@), now2);
    assert(ids_of(o1) =~= ids_of(seq![identity_spec(now1)]) + ids_of(b1) + ids_of(c1) + ids_of(d1));
    assert(ids_of(o2) =~= ids_of(seq![identity_spec(now2)]) + ids_of(b2) + ids_of(c2) + ids_of(d2));
    assert(ids_of(seq![identity_spec(now1)]) =~= ids_of(seq![identity_spec(now2)]));
    reveal_strlit("type");
    reveal_strlit("id");
    assert("type"@.len() == 4 && "id"@.len() == 2);
    reveal_with_fuel(crate::json::vget, 2);
    assert(stix_spec(p, now1)->Object_0.drop_first()[0] == stix_spec(p, now1)->Object_0[1]);
    assert(stix_spec(p, now2)->Object_0.drop_first()[0] == stix_spec(p, now2)->Object_0[1]);
}

} // verus!
