//! Local CTI exports of a correlation payload: a MISP event and a TheHive alert. Both are
//! files to download; nothing is pushed anywhere.
use vstd::prelude::*;

use crate::correlate::{attack_ids, attack_table, meta_in, scrub, scrub_spec, str_array};
use crate::findings::{array_of, object_of, strs_of, sviews};
use crate::json::{get, jarr, jget, jviews, str_or, str_or_empty, Json, JsonV};
use crate::text::{chars_of, string_of, trim, trim_chars};

verus! {

/// The findings array of a payload (none where there is no such array).
pub open spec fn payload_findings(p: JsonV) -> Seq<JsonV> {
    match jarr(jget(p, "findings"@)) {
        Some(xs) => xs,
        None => Seq::empty(),
    }
}

/// The findings array of a payload.
fn payload_findings_exec(p: &Json) -> (r: Vec<Json>)
    ensures
        jviews(r@) == payload_findings(p@),
{
    let v = get(p, "findings");
    match v {
        Some(Json::Array(xs)) => {
            proof {
                crate::json::lemma_array_view(*v->Some_0);
            }
            let r = crate::json::clone_all(xs);
            assert(jviews(r@) =~= payload_findings(p@));
            r
        },
        _ => {
            let r: Vec<Json> = Vec::new();
            assert(jviews(r@) =~= Seq::<JsonV>::empty());
            r
        },
    }
}

/// The name of a catalog technique, or `ATT&CK` for an unknown one.
pub open spec fn technique_name(t: Seq<char>) -> Seq<char> {
    if attack_ids().contains(t) {
        meta_in(attack_table(), t).0
    } else {
        "ATT&CK"@
    }
}

/// The name of a technique.
fn technique_name_exec(t: &Vec<char>) -> (r: String)
    ensures
        r@ == technique_name(t@),
{
    let rows = crate::correlate::attack_rows();
    let ghost tb = attack_table();
    let mut i: usize = 0;
    assert(tb.subrange(0, tb.len() as int) =~= tb);
    while i < rows.len()
        invariant
            i <= rows@.len() == tb.len(),
            tb == attack_table(),
            forall|k: int| 0 <= k < rows@.len() ==> (#[trigger] rows@[k]).0@ == tb[k].0 && rows@[k].1@ == tb[k].1,
            forall|k: int| 0 <= k < i ==> tb[k].0 != t@,
            meta_in(tb, t@) == meta_in(tb.subrange(i as int, tb.len() as int), t@),
        decreases rows.len() - i,
    {
        let ghost rest = tb.subrange(i as int, tb.len() as int);
        assert(rest[0] == tb[i as int]);
        assert(rest.drop_first() =~= tb.subrange(i + 1, tb.len() as int));
        if crate::text::eq_chars(&chars_of(rows[i].0), t) {
            assert(attack_ids()[i as int] == t@);
            return String::from_str(rows[i].1);
        }
        i = i + 1;
    }
    proof {
        if attack_ids().contains(t@) {
            let k = choose|k: int| 0 <= k < attack_ids().len() && attack_ids()[k] == t@;
            assert(tb[k].0 == t@);
        }
    }
    String::from_str("ATT&CK")
}

/// A MISP attribute.
pub open spec fn attribute(ty: Seq<char>, category: Seq<char>, value: Seq<char>, comment: Seq<char>, to_ids: bool) -> JsonV {
    JsonV::Object(
        seq![
            ("type"@, JsonV::Str(ty)),
            ("category"@, JsonV::Str(category)),
            ("value"@, JsonV::Str(value)),
            ("comment"@, JsonV::Str(comment)),
            ("to_ids"@, JsonV::Bool(to_ids)),
        ],
    )
}

/// A MISP attribute.
fn attribute_exec(ty: &str, category: &str, value: &Vec<char>, comment: &Vec<char>, to_ids: bool) -> (r: Json)
    ensures
        r@ == attribute(ty@, category@, value@, comment@, to_ids),
{
    let mut f: Vec<(String, Json)> = Vec::new();
    f.push((String::from_str("type"), Json::Str(String::from_str(ty))));
    f.push((String::from_str("category"), Json::Str(String::from_str(category))));
    f.push((String::from_str("value"), Json::Str(string_of(value))));
    f.push((String::from_str("comment"), Json::Str(string_of(comment))));
    f.push((String::from_str("to_ids"), Json::Bool(to_ids)));
    let o = object_of(f);
    assert(crate::json::fview(f@) =~= attribute(ty@, category@, value@, comment@, to_ids)->Object_0);
    o
}

/// The text of a JSON string (empty for anything else).
pub open spec fn text_of(v: JsonV) -> Seq<char> {
    match v {
        JsonV::Str(s) => s,
        _ => Seq::empty(),
    }
}

/// The technique attributes of a finding's `attack` items (non-text items give empty ids).
pub open spec fn technique_attributes(items: Seq<JsonV>) -> Seq<JsonV>
    decreases items.len(),
{
    if items.len() == 0 {
        Seq::empty()
    } else {
        let t = text_of(items.last());
        technique_attributes(items.drop_last()).push(
            attribute("text"@, "External analysis"@, t, technique_name(t), false),
        )
    }
}

/// The MISP attributes of one finding: its source address, its event name, and each of its
/// techniques.
pub open spec fn finding_attributes(f: JsonV) -> Seq<JsonV> {
    let ip = trim(str_or_empty(f, "ip"@));
    let scenario = str_or_empty(f, "scenario"@);
    let comment = scenario + " \u{b7} "@ + str_or(f, "owasp"@, "none"@) + " \u{b7} "@ + str_or_empty(f, "confidence"@);
    let a: Seq<JsonV> = if ip.len() > 0 {
        seq![attribute("ip-src"@, "Network activity"@, ip, comment, true)]
    } else {
        Seq::empty()
    };
    let b: Seq<JsonV> = if scenario.len() > 0 {
        seq![attribute("text"@, "Other"@, scenario, comment, false)]
    } else {
        Seq::empty()
    };
    let c = match jarr(jget(f, "attack"@)) {
        Some(items) => technique_attributes(items),
        None => Seq::empty(),
    };
    a + b + c
}

/// The MISP attributes of a list of findings, in order.
pub open spec fn all_attributes(fs: Seq<JsonV>) -> Seq<JsonV>
    decreases fs.len(),
{
    if fs.len() == 0 {
        Seq::empty()
    } else {
        all_attributes(fs.drop_last()) + finding_attributes(fs.last())
    }
}

/// Appends the MISP attributes of one finding.
fn push_finding_attributes(out: &mut Vec<Json>, f: &Json)
    ensures
        jviews(final(out)@) == jviews(old(out)@) + finding_attributes(f@),
{
    let ghost o = jviews(out@);
    let ip = trim_chars(&chars_of(crate::json::get_str_or_empty(f, "ip").as_str()));
    let scenario = chars_of(crate::json::get_str_or_empty(f, "scenario").as_str());
    let mut comment = scenario.clone();
    crate::text::append_str(&mut comment, " \u{b7} ");
    let owasp = crate::json::get_str_or(f, "owasp", "none");
    crate::text::append_chars(&mut comment, &owasp);
    crate::text::append_str(&mut comment, " \u{b7} ");
    let conf = chars_of(crate::json::get_str_or_empty(f, "confidence").as_str());
    crate::text::append_chars(&mut comment, &conf);
    let ghost a: Seq<JsonV> = if ip@.len() > 0 {
        seq![attribute("ip-src"@, "Network activity"@, ip@, comment@, true)]
    } else {
        Seq::empty()
    };
    let ghost b: Seq<JsonV> = if scenario@.len() > 0 {
        seq![attribute("text"@, "Other"@, scenario@, comment@, false)]
    } else {
        Seq::empty()
    };
    if ip.len() > 0 {
        out.push(attribute_exec("ip-src", "Network activity", &ip, &comment, true));
    }
    assert(jviews(out@) =~= o + a);
    if scenario.len() > 0 {
        out.push(attribute_exec("text", "Other", &scenario, &comment, false));
    }
    assert(jviews(out@) =~= o + a + b);
    let av = get(f, "attack");
    match av {
        Some(Json::Array(items)) => {
            proof {
                crate::json::lemma_array_view(*av->Some_0);
            }
            let ghost iv = av->Some_0@->Array_0;
            let mut i: usize = 0;
            assert(iv.take(0) =~= Seq::<JsonV>::empty());
            while i < items.len()
                invariant
                    i <= items@.len() == iv.len(),
                    forall|k: int| 0 <= k < items@.len() ==> #[trigger] iv[k] == items@[k]@,
                    jviews(out@) == o + a + b + technique_attributes(iv.take(i as int)),
                decreases items.len() - i,
            {
                assert(iv.take(i + 1).drop_last() =~= iv.take(i as int));
                assert(iv.take(i + 1).last() == items@[i as int]@);
                let t = match &items[i] {
                    Json::Str(s) => chars_of(s.as_str()),
                    _ => Vec::new(),
                };
                let name = technique_name_exec(&t);
                let ghost prev = out@;
                out.push(attribute_exec("text", "External analysis", &t, &chars_of(name.as_str()), false));
                assert(jviews(out@) =~= jviews(prev).push(out@.last()@));
                i = i + 1;
            }
            assert(iv.take(items.len() as int) =~= iv);
        },
        _ => {
            assert(jviews(out@) =~= o + a + b + Seq::<JsonV>::empty());
        },
    }
}

/// The MISP event of a correlation payload dated `date`.
pub open spec fn misp_spec(p: JsonV, date: Seq<char>) -> JsonV {
    JsonV::Object(
        seq![
            ("Event"@, JsonV::Object(
                seq![
                    ("info"@, JsonV::Str("WAF console CrowdSec findings (OWASP Top 10:2021)"@)),
                    ("date"@, JsonV::Str(date)),
                    ("threat_level_id"@, JsonV::Str("2"@)),
                    ("analysis"@, JsonV::Str("1"@)),
                    ("distribution"@, JsonV::Str("0"@)),
                    ("published"@, JsonV::Bool(false)),
                    ("Attribute"@, JsonV::Array(all_attributes(payload_findings(p)))),
                    ("Tag"@, JsonV::Array(seq![
                        JsonV::Object(seq![("name"@, JsonV::Str("owasp:top10:2021"@))]),
                        JsonV::Object(seq![("name"@, JsonV::Str("tlp:amber"@))]),
                    ])),
                    ("Galaxy"@, JsonV::Array(Seq::empty())),
                ],
            )),
            ("push"@, JsonV::Bool(false)),
        ],
    )
}

/// A one-field object `{"name": name}`.
fn name_tag(name: &str) -> (r: Json)
    ensures
        r@ == JsonV::Object(seq![("name"@, JsonV::Str(name@))]),
{
    let mut f: Vec<(String, Json)> = Vec::new();
    f.push((String::from_str("name"), Json::Str(String::from_str(name))));
    let o = object_of(f);
    assert(crate::json::fview(f@) =~= seq![("name"@, JsonV::Str(name@))]);
    o
}

/// The MISP event of a correlation payload, dated `date` (`YYYY-MM-DD`): an attribute for
/// each finding's source address, event name and techniques; secret-looking keys scrubbed.
pub fn misp_event_at(payload: &Json, date: &str) -> (r: Json)
    ensures
        r@ == scrub_spec(misp_spec(payload@, date@)),
{
    let fs = payload_findings_exec(payload);
    let ghost fv = jviews(fs@);
    let mut attrs: Vec<Json> = Vec::new();
    let mut i: usize = 0;
    assert(fv.take(0) =~= Seq::<JsonV>::empty());
    while i < fs.len()
        invariant
            i <= fs@.len() == fv.len(),
            fv == jviews(fs@),
            jviews(attrs@) == all_attributes(fv.take(i as int)),
        decreases fs.len() - i,
    {
        assert(fv.take(i + 1).drop_last() =~= fv.take(i as int));
        assert(fv.take(i + 1).last() == fs@[i as int]@);
        push_finding_attributes(&mut attrs, &fs[i]);
        i = i + 1;
    }
    assert(fv.take(fs.len() as int) =~= fv);
    let mut tags: Vec<Json> = Vec::new();
    tags.push(name_tag("owasp:top10:2021"));
    tags.push(name_tag("tlp:amber"));
    let mut ev: Vec<(String, Json)> = Vec::new();
    ev.push((String::from_str("info"), Json::Str(String::from_str("WAF console CrowdSec findings (OWASP Top 10:2021)"))));
    ev.push((String::from_str("date"), Json::Str(String::from_str(date))));
    ev.push((String::from_str("threat_level_id"), Json::Str(String::from_str("2"))));
    ev.push((String::from_str("analysis"), Json::Str(String::from_str("1"))));
    ev.push((String::from_str("distribution"), Json::Str(String::from_str("0"))));
    ev.push((String::from_str("published"), Json::Bool(false)));
    ev.push((String::from_str("Attribute"), array_of(attrs)));
    assert(jviews(tags@) =~= seq![
        JsonV::Object(seq![("name"@, JsonV::Str("owasp:top10:2021"@))]),
        JsonV::Object(seq![("name"@, JsonV::Str("tlp:amber"@))]),
    ]);
    let tv = array_of(tags);
    assert(tv@ == JsonV::Array(seq![
        JsonV::Object(seq![("name"@, JsonV::Str("owasp:top10:2021"@))]),
        JsonV::Object(seq![("name"@, JsonV::Str("tlp:amber"@))]),
    ]));
    ev.push((String::from_str("Tag"), tv));
    let none: Vec<Json> = Vec::new();
    assert(jviews(none@) =~= Seq::<JsonV>::empty());
    let gv = array_of(none);
    assert(gv@ == JsonV::Array(Seq::empty()));
    ev.push((String::from_str("Galaxy"), gv));
    let event = object_of(ev);
    let mut top: Vec<(String, Json)> = Vec::new();
    top.push((String::from_str("Event"), event));
    top.push((String::from_str("push"), Json::Bool(false)));
    let o = object_of(top);
    assert(crate::json::fview(ev@) =~= misp_spec(payload@, date@)->Object_0[0].1->Object_0);
    assert(crate::json::fview(top@) =~= misp_spec(payload@, date@)->Object_0);
    scrub(o)
}

/// The MISP event of a correlation payload, dated today (UTC).
pub fn misp_event(payload: &Json) -> (r: Json)
    ensures
        exists|date: Seq<char>| crate::fresh::clock_shaped(date, crate::fresh::day_tail()) && r@ == #[trigger] scrub_spec(misp_spec(payload@, date)),
{
    let date = crate::fresh::utc_day();
    let r = misp_event_at(payload, date.as_str());
    assert(r@ == scrub_spec(misp_spec(payload@, date@)));
    r
}

} // verus!

verus! {

/// `tags` with `t` appended unless it is already there.
pub open spec fn add_tag(tags: Seq<Seq<char>>, t: Seq<char>) -> Seq<Seq<char>> {
    if tags.contains(t) {
        tags
    } else {
        tags.push(t)
    }
}

/// `tags` with an `attack:` tag for each technique id, each once.
pub open spec fn add_attack_tags(tags: Seq<Seq<char>>, ids: Seq<Seq<char>>) -> Seq<Seq<char>>
    decreases ids.len(),
{
    if ids.len() == 0 {
        tags
    } else {
        add_tag(add_attack_tags(tags, ids.drop_last()), "attack:"@ + ids.last())
    }
}

/// `tags` after one finding: its `owasp:` tag (for a real category) and its `attack:` tags.
pub open spec fn finding_tags(tags: Seq<Seq<char>>, f: JsonV) -> Seq<Seq<char>> {
    let owasp = str_or_empty(f, "owasp"@);
    let t1 = if owasp.len() > 0 && owasp != "none"@ {
        add_tag(tags, "owasp:"@ + owasp)
    } else {
        tags
    };
    match jarr(jget(f, "attack"@)) {
        Some(items) => add_attack_tags(t1, strs_of(items)),
        None => t1,
    }
}

/// The tags of a TheHive alert after the given findings.
pub open spec fn all_tags(fs: Seq<JsonV>) -> Seq<Seq<char>>
    decreases fs.len(),
{
    if fs.len() == 0 {
        seq!["waf-console"@, "crowdsec"@, "owasp-top10-2021"@]
    } else {
        finding_tags(all_tags(fs.drop_last()), fs.last())
    }
}

/// The TheHive artifact of a finding with a source address.
pub open spec fn artifact(f: JsonV) -> JsonV {
    let scenario = str_or_empty(f, "scenario"@);
    JsonV::Object(
        seq![
            ("dataType"@, JsonV::Str("ip"@)),
            ("data"@, JsonV::Str(trim(str_or_empty(f, "ip"@)))),
            ("message"@, JsonV::Str(if scenario.len() == 0 { "crowdsec-alert"@ } else { scenario })),
            ("tags"@, str_array(seq![str_or(f, "owasp"@, "none"@)])),
        ],
    )
}

/// The TheHive artifacts of the findings that have a source address.
pub open spec fn all_artifacts(fs: Seq<JsonV>) -> Seq<JsonV>
    decreases fs.len(),
{
    if fs.len() == 0 {
        Seq::empty()
    } else {
        let p = all_artifacts(fs.drop_last());
        if trim(str_or_empty(fs.last(), "ip"@)).len() > 0 {
            p.push(artifact(fs.last()))
        } else {
            p
        }
    }
}

/// The TheHive alert of a correlation payload, referenced by `stamp`.
pub open spec fn thehive_spec(p: JsonV, stamp: Seq<char>) -> JsonV {
    let fs = payload_findings(p);
    JsonV::Object(
        seq![
            ("type"@, JsonV::Str("waf-console"@)),
            ("source"@, JsonV::Str("crowdsec-lapi"@)),
            ("sourceRef"@, JsonV::Str("waf-findings-"@ + stamp)),
            ("title"@, JsonV::Str("WAF console CrowdSec findings"@)),
            ("description"@, JsonV::Str(
                "Local export of CrowdSec LAPI/AppSec findings correlated with OWASP Top 10:2021. push=False."@,
            )),
            ("severity"@, JsonV::Int(2)),
            ("status"@, JsonV::Str("New"@)),
            ("follow"@, JsonV::Bool(false)),
            ("tags"@, str_array(all_tags(fs))),
            ("artifacts"@, JsonV::Array(all_artifacts(fs))),
            ("push"@, JsonV::Bool(false)),
        ],
    )
}

/// Appends `t` to `tags` unless it is already there.
fn add_tag_exec(tags: &mut Vec<Vec<char>>, t: Vec<char>)
    ensures
        crate::correlate::vviews(final(tags)@) == add_tag(crate::correlate::vviews(old(tags)@), t@),
{
    let ghost o = crate::correlate::vviews(tags@);
    let mut i: usize = 0;
    while i < tags.len()
        invariant
            i <= tags@.len(),
            o == crate::correlate::vviews(tags@),
            forall|k: int| 0 <= k < i ==> o[k] != t@,
        decreases tags.len() - i,
    {
        if crate::text::eq_chars(&tags[i], &t) {
            assert(o[i as int] == t@);
            return;
        }
        i = i + 1;
    }
    tags.push(t);
    assert(crate::correlate::vviews(tags@) =~= o.push(t@));
}

/// Adds the tags of one finding.
fn add_finding_tags(tags: &mut Vec<Vec<char>>, f: &Json)
    ensures
        crate::correlate::vviews(final(tags)@) == finding_tags(crate::correlate::vviews(old(tags)@), f@),
{
    let owasp = chars_of(crate::json::get_str_or_empty(f, "owasp").as_str());
    if owasp.len() > 0 && !crate::text::eq_chars(&owasp, &chars_of("none")) {
        let mut t = chars_of("owasp:");
        crate::text::append_chars(&mut t, &owasp);
        add_tag_exec(tags, t);
    }
    let ghost t1 = crate::correlate::vviews(tags@);
    let av = get(f, "attack");
    let ids = crate::findings::str_items_exec(av);
    let ghost idv = sviews(ids@);
    let mut i: usize = 0;
    assert(idv.take(0) =~= Seq::<Seq<char>>::empty());
    while i < ids.len()
        invariant
            i <= ids@.len() == idv.len(),
            idv == sviews(ids@),
            crate::correlate::vviews(tags@) == add_attack_tags(t1, idv.take(i as int)),
        decreases ids.len() - i,
    {
        assert(idv.take(i + 1).drop_last() =~= idv.take(i as int));
        assert(idv.take(i + 1).last() == ids@[i as int]@);
        let mut t = chars_of("attack:");
        crate::text::append_str(&mut t, ids[i].as_str());
        add_tag_exec(tags, t);
        i = i + 1;
    }
    assert(idv.take(ids.len() as int) =~= idv);
    proof {
        match av {
            Some(x) => match x@ {
                JsonV::Array(items) => {},
                _ => {
                    assert(idv =~= Seq::<Seq<char>>::empty());
                },
            },
            None => {
                assert(idv =~= Seq::<Seq<char>>::empty());
            },
        }
    }
}

/// The TheHive artifact of a finding.
fn artifact_exec(f: &Json) -> (r: Json)
    ensures
        r@ == artifact(f@),
{
    let ip = trim_chars(&chars_of(crate::json::get_str_or_empty(f, "ip").as_str()));
    let scenario = crate::json::get_str_or_empty(f, "scenario");
    let message = if chars_of(scenario.as_str()).len() == 0 {
        String::from_str("crowdsec-alert")
    } else {
        scenario
    };
    let owasp = crate::json::get_str_or(f, "owasp", "none");
    let mut tags: Vec<Vec<char>> = Vec::new();
    tags.push(owasp);
    let tj = crate::correlate::str_array_pub(&tags);
    assert(crate::correlate::vviews(tags@) =~= seq![str_or(f@, "owasp"@, "none"@)]);
    let mut fl: Vec<(String, Json)> = Vec::new();
    fl.push((String::from_str("dataType"), Json::Str(String::from_str("ip"))));
    fl.push((String::from_str("data"), Json::Str(string_of(&ip))));
    fl.push((String::from_str("message"), Json::Str(message)));
    fl.push((String::from_str("tags"), tj));
    let o = object_of(fl);
    assert(crate::json::fview(fl@) =~= artifact(f@)->Object_0);
    o
}

/// The TheHive alert of a correlation payload referenced by `stamp` (`YYYYMMDDTHHMMSSZ`): an
/// artifact per finding with a source address, and tags for the categories and techniques
/// found, each once; secret-looking keys scrubbed.
pub fn thehive_alert_at(payload: &Json, stamp: &str) -> (r: Json)
    ensures
        r@ == scrub_spec(thehive_spec(payload@, stamp@)),
{
    let fs = payload_findings_exec(payload);
    let ghost fv = jviews(fs@);
    let mut tags: Vec<Vec<char>> = Vec::new();
    tags.push(chars_of("waf-console"));
    tags.push(chars_of("crowdsec"));
    tags.push(chars_of("owasp-top10-2021"));
    let mut arts: Vec<Json> = Vec::new();
    let mut i: usize = 0;
    assert(fv.take(0) =~= Seq::<JsonV>::empty());
    assert(crate::correlate::vviews(tags@) =~= all_tags(fv.take(0)));
    while i < fs.len()
        invariant
            i <= fs@.len() == fv.len(),
            fv == jviews(fs@),
            crate::correlate::vviews(tags@) == all_tags(fv.take(i as int)),
            jviews(arts@) == all_artifacts(fv.take(i as int)),
        decreases fs.len() - i,
    {
        assert(fv.take(i + 1).drop_last() =~= fv.take(i as int));
        assert(fv.take(i + 1).last() == fs@[i as int]@);
        let ip = trim_chars(&chars_of(crate::json::get_str_or_empty(&fs[i], "ip").as_str()));
        if ip.len() > 0 {
            let ghost o = arts@;
            arts.push(artifact_exec(&fs[i]));
            assert(jviews(arts@) =~= jviews(o).push(artifact(fs@[i as int]@)));
        }
        add_finding_tags(&mut tags, &fs[i]);
        i = i + 1;
    }
    assert(fv.take(fs.len() as int) =~= fv);
    let mut r = chars_of("waf-findings-");
    crate::text::append_str(&mut r, stamp);
    let mut fl: Vec<(String, Json)> = Vec::new();
    fl.push((String::from_str("type"), Json::Str(String::from_str("waf-console"))));
    fl.push((String::from_str("source"), Json::Str(String::from_str("crowdsec-lapi"))));
    fl.push((String::from_str("sourceRef"), Json::Str(string_of(&r))));
    fl.push((String::from_str("title"), Json::Str(String::from_str("WAF console CrowdSec findings"))));
    fl.push((String::from_str("description"), Json::Str(String::from_str(
        "Local export of CrowdSec LAPI/AppSec findings correlated with OWASP Top 10:2021. push=False.",
    ))));
    fl.push((String::from_str("severity"), Json::Int(2)));
    fl.push((String::from_str("status"), Json::Str(String::from_str("New"))));
    fl.push((String::from_str("follow"), Json::Bool(false)));
    fl.push((String::from_str("tags"), crate::correlate::str_array_pub(&tags)));
    fl.push((String::from_str("artifacts"), array_of(arts)));
    fl.push((String::from_str("push"), Json::Bool(false)));
    let o = object_of(fl);
    assert(crate::json::fview(fl@) =~= thehive_spec(payload@, stamp@)->Object_0);
    scrub(o)
}

/// The TheHive alert of a correlation payload, referenced by the current UTC time.
pub fn thehive_alert(payload: &Json) -> (r: Json)
    ensures
        exists|stamp: Seq<char>| crate::fresh::clock_shaped(stamp, crate::fresh::compact_tail()) && r@ == #[trigger] scrub_spec(thehive_spec(payload@, stamp)),
{
    let stamp = crate::fresh::utc_compact();
    let r = thehive_alert_at(payload, stamp.as_str());
    assert(r@ == scrub_spec(thehive_spec(payload@, stamp@)));
    r
}

} // verus!

verus! {

/// A tag list stays free of repeats when a tag is added.
proof fn lemma_add_tag_unique(tags: Seq<Seq<char>>, t: Seq<char>)
    requires
        tags.no_duplicates(),
    ensures
        add_tag(tags, t).no_duplicates(),
{
    if !tags.contains(t) {
        let n = tags.push(t);
        assert forall|i: int, j: int| 0 <= i < n.len() && 0 <= j < n.len() && i != j implies n[i] != n[j] by {
            if i < tags.len() && j < tags.len() {
                assert(n[i] == tags[i] && n[j] == tags[j]);
            } else if i == tags.len() {
                assert(n[j] == tags[j]);
            } else {
                assert(n[i] == tags[i]);
            }
        }
    }
}

/// Adding technique tags keeps a tag list free of repeats.
proof fn lemma_attack_tags_unique(tags: Seq<Seq<char>>, ids: Seq<Seq<char>>)
    requires
        tags.no_duplicates(),
    ensures
        add_attack_tags(tags, ids).no_duplicates(),
    decreases ids.len(),
{
    if ids.len() > 0 {
        lemma_attack_tags_unique(tags, ids.drop_last());
        lemma_add_tag_unique(add_attack_tags(tags, ids.drop_last()), "attack:"@ + ids.last());
    }
}

/// A TheHive alert names each tag once, whatever the findings.
pub proof fn law_thehive_tags_unique(fs: Seq<JsonV>)
    ensures
        all_tags(fs).no_duplicates(),
    decreases fs.len(),
{
    if fs.len() == 0 {
        reveal_strlit("waf-console");
        reveal_strlit("crowdsec");
        reveal_strlit("owasp-top10-2021");
        let t = seq!["waf-console"@, "crowdsec"@, "owasp-top10-2021"@];
        assert(t[0] != t[1] && t[0] != t[2] && t[1] != t[2]) by {
            assert(t[0].len() != t[1].len());
            assert(t[1].len() != t[2].len());
            assert(t[0].len() != t[2].len());
        }
    } else {
        law_thehive_tags_unique(fs.drop_last());
        let prev = all_tags(fs.drop_last());
        let f = fs.last();
        let owasp = str_or_empty(f, "owasp"@);
        let t1 = if owasp.len() > 0 && owasp != "none"@ {
            lemma_add_tag_unique(prev, "owasp:"@ + owasp);
            add_tag(prev, "owasp:"@ + owasp)
        } else {
            prev
        };
        match jarr(jget(f, "attack"@)) {
            Some(items) => lemma_attack_tags_unique(t1, strs_of(items)),
            None => {},
        }
    }
}

} // verus!
