//! OWASP Top 10:2021 and MITRE ATT&CK correlation of CrowdSec alerts, and local exports.
use vstd::prelude::*;

use crate::json::{
    clone_json, field_is, get, get_str, get_str_or, get_str_or_empty, is_object, jget, jstr,
    jtext, json_text, jviews, lemma_array_view, lemma_object_fview, lemma_object_view, obj_set,
    set_field, str_or, str_or_empty, fview, Json, JsonV,
};
use crate::pattern::{re_captures, re_find_all, re_is_match, regex_all, regex_groups, regex_match};
use crate::text::{
    append_chars, append_str, chars_of, eq_chars, lower, string_of, trim, trim_chars, upper,
    upper_chars,
};

verus! {

/// Where the OWASP categories are documented.
pub const OWASP_SOURCE: &'static str = "https://owasp.org/Top10/2021/";

/// The OWASP Top 10:2021 categories: code, id, name and reference URL.
pub open spec fn owasp_table() -> Seq<(Seq<char>, Seq<char>, Seq<char>, Seq<char>)> {
    seq![
        ("A01"@, "A01:2021"@, "Broken Access Control"@, "https://owasp.org/Top10/2021/A01_2021-Broken_Access_Control.html"@),
        ("A02"@, "A02:2021"@, "Cryptographic Failures"@, "https://owasp.org/Top10/2021/A02_2021-Cryptographic_Failures.html"@),
        ("A03"@, "A03:2021"@, "Injection"@, "https://owasp.org/Top10/2021/A03_2021-Injection.html"@),
        ("A04"@, "A04:2021"@, "Insecure Design"@, "https://owasp.org/Top10/2021/A04_2021-Insecure_Design.html"@),
        ("A05"@, "A05:2021"@, "Security Misconfiguration"@, "https://owasp.org/Top10/2021/A05_2021-Security_Misconfiguration.html"@),
        ("A06"@, "A06:2021"@, "Vulnerable and Outdated Components"@, "https://owasp.org/Top10/2021/A06_2021-Vulnerable_and_Outdated_Components.html"@),
        ("A07"@, "A07:2021"@, "Identification and Authentication Failures"@, "https://owasp.org/Top10/2021/A07_2021-Identification_and_Authentication_Failures.html"@),
        ("A08"@, "A08:2021"@, "Software and Data Integrity Failures"@, "https://owasp.org/Top10/2021/A08_2021-Software_and_Data_Integrity_Failures.html"@),
        ("A09"@, "A09:2021"@, "Security Logging and Monitoring Failures"@, "https://owasp.org/Top10/2021/A09_2021-Security_Logging_and_Monitoring_Failures.html"@),
        ("A10"@, "A10:2021"@, "Server-Side Request Forgery (SSRF)"@, "https://owasp.org/Top10/2021/A10_2021-Server-Side_Request_Forgery_%28SSRF%29.html"@),
    ]
}

/// The rows of the OWASP table.
pub(crate) fn owasp_rows() -> (v: Vec<(&'static str, &'static str, &'static str, &'static str)>)
    ensures
        v@.len() == owasp_table().len(),
        forall|i: int| 0 <= i < v@.len() ==> (#[trigger] v@[i]).0@ == owasp_table()[i].0 && v@[i].1@
            == owasp_table()[i].1 && v@[i].2@ == owasp_table()[i].2 && v@[i].3@ == owasp_table()[i].3,
{
    vec![
        ("A01", "A01:2021", "Broken Access Control", "https://owasp.org/Top10/2021/A01_2021-Broken_Access_Control.html"),
        ("A02", "A02:2021", "Cryptographic Failures", "https://owasp.org/Top10/2021/A02_2021-Cryptographic_Failures.html"),
        ("A03", "A03:2021", "Injection", "https://owasp.org/Top10/2021/A03_2021-Injection.html"),
        ("A04", "A04:2021", "Insecure Design", "https://owasp.org/Top10/2021/A04_2021-Insecure_Design.html"),
        ("A05", "A05:2021", "Security Misconfiguration", "https://owasp.org/Top10/2021/A05_2021-Security_Misconfiguration.html"),
        ("A06", "A06:2021", "Vulnerable and Outdated Components", "https://owasp.org/Top10/2021/A06_2021-Vulnerable_and_Outdated_Components.html"),
        ("A07", "A07:2021", "Identification and Authentication Failures", "https://owasp.org/Top10/2021/A07_2021-Identification_and_Authentication_Failures.html"),
        ("A08", "A08:2021", "Software and Data Integrity Failures", "https://owasp.org/Top10/2021/A08_2021-Software_and_Data_Integrity_Failures.html"),
        ("A09", "A09:2021", "Security Logging and Monitoring Failures", "https://owasp.org/Top10/2021/A09_2021-Security_Logging_and_Monitoring_Failures.html"),
        ("A10", "A10:2021", "Server-Side Request Forgery (SSRF)", "https://owasp.org/Top10/2021/A10_2021-Server-Side_Request_Forgery_%28SSRF%29.html"),
    ]
}

/// A JSON string.
pub open spec fn js(s: Seq<char>) -> JsonV {
    JsonV::Str(s)
}

/// A JSON string from a slice.
fn jstr_of(s: &str) -> (r: Json)
    ensures
        r@ == js(s@),
{
    Json::Str(String::from_str(s))
}

/// The OWASP category object of a table row.
pub open spec fn owasp_object(row: (Seq<char>, Seq<char>, Seq<char>, Seq<char>)) -> JsonV {
    JsonV::Object(seq![("code"@, js(row.0)), ("id"@, js(row.1)), ("name"@, js(row.2)), ("url"@, js(row.3))])
}

/// The OWASP Top 10:2021 categories as objects with `code`, `id`, `name` and `url`.
pub fn owasp_2021() -> (r: Vec<Json>)
    ensures
        jviews(r@) == owasp_table().map_values(|row: (Seq<char>, Seq<char>, Seq<char>, Seq<char>)| owasp_object(row)),
{
    let rows = owasp_rows();
    let mut out: Vec<Json> = Vec::new();
    let mut i: usize = 0;
    while i < rows.len()
        invariant
            i <= rows@.len() == owasp_table().len(),
            forall|k: int| 0 <= k < rows@.len() ==> (#[trigger] rows@[k]).0@ == owasp_table()[k].0 && rows@[k].1@
                == owasp_table()[k].1 && rows@[k].2@ == owasp_table()[k].2 && rows@[k].3@ == owasp_table()[k].3,
            out@.len() == i,
            forall|k: int| 0 <= k < i ==> #[trigger] out@[k]@ == owasp_object(owasp_table()[k]),
        decreases rows.len() - i,
    {
        let (c, id, n, u) = rows[i];
        let mut f: Vec<(String, Json)> = Vec::new();
        f.push((String::from_str("code"), jstr_of(c)));
        f.push((String::from_str("id"), jstr_of(id)));
        f.push((String::from_str("name"), jstr_of(n)));
        f.push((String::from_str("url"), jstr_of(u)));
        let o = Json::Object(f);
        proof {
            lemma_object_fview(o);
            assert(fview(f@) =~= owasp_object(owasp_table()[i as int])->Object_0);
        }
        out.push(o);
        i = i + 1;
    }
    assert(jviews(out@) =~= owasp_table().map_values(|row: (Seq<char>, Seq<char>, Seq<char>, Seq<char>)| owasp_object(row)));
    out
}

/// The MITRE ATT&CK Enterprise techniques the console knows: id, name, tactic and URL.
pub open spec fn attack_table() -> Seq<(Seq<char>, Seq<char>, Seq<char>, Seq<char>)> {
    seq![
        ("T1190"@, "Exploit Public-Facing Application"@, "Initial Access"@, "https://attack.mitre.org/techniques/T1190/"@),
        ("T1595"@, "Active Scanning"@, "Reconnaissance"@, "https://attack.mitre.org/techniques/T1595/"@),
        ("T1110"@, "Brute Force"@, "Credential Access"@, "https://attack.mitre.org/techniques/T1110/"@),
        ("T1059"@, "Command and Scripting Interpreter"@, "Execution"@, "https://attack.mitre.org/techniques/T1059/"@),
        ("T1083"@, "File and Directory Discovery"@, "Discovery"@, "https://attack.mitre.org/techniques/T1083/"@),
        ("T1046"@, "Network Service Discovery"@, "Discovery"@, "https://attack.mitre.org/techniques/T1046/"@),
        ("T1189"@, "Drive-by Compromise"@, "Initial Access"@, "https://attack.mitre.org/techniques/T1189/"@),
        ("T1505"@, "Server Software Component"@, "Persistence"@, "https://attack.mitre.org/techniques/T1505/"@),
        ("T1090"@, "Proxy"@, "Command and Control"@, "https://attack.mitre.org/techniques/T1090/"@),
        ("T1562"@, "Impair Defenses"@, "Defense Evasion"@, "https://attack.mitre.org/techniques/T1562/"@),
        ("T1600"@, "Weaken Encryption"@, "Defense Evasion"@, "https://attack.mitre.org/techniques/T1600/"@),
        ("T1068"@, "Exploitation for Privilege Escalation"@, "Privilege Escalation"@, "https://attack.mitre.org/techniques/T1068/"@),
        ("T1505.003"@, "Web Shell"@, "Persistence"@, "https://attack.mitre.org/techniques/T1505/003/"@),
    ]
}

/// The rows of the ATT&CK table.
pub(crate) fn attack_rows() -> (v: Vec<(&'static str, &'static str, &'static str, &'static str)>)
    ensures
        v@.len() == attack_table().len(),
        forall|i: int| 0 <= i < v@.len() ==> (#[trigger] v@[i]).0@ == attack_table()[i].0 && v@[i].1@
            == attack_table()[i].1 && v@[i].2@ == attack_table()[i].2 && v@[i].3@ == attack_table()[i].3,
{
    vec![
        ("T1190", "Exploit Public-Facing Application", "Initial Access", "https://attack.mitre.org/techniques/T1190/"),
        ("T1595", "Active Scanning", "Reconnaissance", "https://attack.mitre.org/techniques/T1595/"),
        ("T1110", "Brute Force", "Credential Access", "https://attack.mitre.org/techniques/T1110/"),
        ("T1059", "Command and Scripting Interpreter", "Execution", "https://attack.mitre.org/techniques/T1059/"),
        ("T1083", "File and Directory Discovery", "Discovery", "https://attack.mitre.org/techniques/T1083/"),
        ("T1046", "Network Service Discovery", "Discovery", "https://attack.mitre.org/techniques/T1046/"),
        ("T1189", "Drive-by Compromise", "Initial Access", "https://attack.mitre.org/techniques/T1189/"),
        ("T1505", "Server Software Component", "Persistence", "https://attack.mitre.org/techniques/T1505/"),
        ("T1090", "Proxy", "Command and Control", "https://attack.mitre.org/techniques/T1090/"),
        ("T1562", "Impair Defenses", "Defense Evasion", "https://attack.mitre.org/techniques/T1562/"),
        ("T1600", "Weaken Encryption", "Defense Evasion", "https://attack.mitre.org/techniques/T1600/"),
        ("T1068", "Exploitation for Privilege Escalation", "Privilege Escalation", "https://attack.mitre.org/techniques/T1068/"),
        ("T1505.003", "Web Shell", "Persistence", "https://attack.mitre.org/techniques/T1505/003/"),
    ]
}

/// The technique ids, in catalog order.
pub open spec fn attack_ids() -> Seq<Seq<char>> {
    attack_table().map_values(|row: (Seq<char>, Seq<char>, Seq<char>, Seq<char>)| row.0)
}

/// The ATT&CK technique object of a table row.
pub open spec fn attack_object(row: (Seq<char>, Seq<char>, Seq<char>, Seq<char>)) -> JsonV {
    JsonV::Object(seq![("id"@, js(row.0)), ("name"@, js(row.1)), ("tactic"@, js(row.2)), ("url"@, js(row.3))])
}

/// The OWASP Top 10:2021 categories (the same list as [`owasp_2021`]).
pub fn owasp_list() -> (r: Vec<Json>)
    ensures
        jviews(r@) == owasp_table().map_values(|row: (Seq<char>, Seq<char>, Seq<char>, Seq<char>)| owasp_object(row)),
{
    owasp_2021()
}

/// The ATT&CK techniques the console knows, in catalog order, as objects with `id`, `name`,
/// `tactic` and `url`.
pub fn attack_catalog() -> (r: Vec<Json>)
    ensures
        jviews(r@) == attack_table().map_values(|row: (Seq<char>, Seq<char>, Seq<char>, Seq<char>)| attack_object(row)),
{
    let rows = attack_rows();
    let mut out: Vec<Json> = Vec::new();
    let mut i: usize = 0;
    while i < rows.len()
        invariant
            i <= rows@.len() == attack_table().len(),
            forall|k: int| 0 <= k < rows@.len() ==> (#[trigger] rows@[k]).0@ == attack_table()[k].0 && rows@[k].1@
                == attack_table()[k].1 && rows@[k].2@ == attack_table()[k].2 && rows@[k].3@ == attack_table()[k].3,
            out@.len() == i,
            forall|k: int| 0 <= k < i ==> #[trigger] out@[k]@ == attack_object(attack_table()[k]),
        decreases rows.len() - i,
    {
        let (t, n, ta, u) = rows[i];
        let mut f: Vec<(String, Json)> = Vec::new();
        f.push((String::from_str("id"), jstr_of(t)));
        f.push((String::from_str("name"), jstr_of(n)));
        f.push((String::from_str("tactic"), jstr_of(ta)));
        f.push((String::from_str("url"), jstr_of(u)));
        let o = Json::Object(f);
        proof {
            lemma_object_fview(o);
            assert(fview(f@) =~= attack_object(attack_table()[i as int])->Object_0);
        }
        out.push(o);
        i = i + 1;
    }
    assert(jviews(out@) =~= attack_table().map_values(|row: (Seq<char>, Seq<char>, Seq<char>, Seq<char>)| attack_object(row)));
    out
}

/// Whether `t` is a known technique id.
pub fn is_known_technique(t: &Vec<char>) -> (r: bool)
    ensures
        r == attack_ids().contains(t@),
{
    let rows = attack_rows();
    let mut i: usize = 0;
    while i < rows.len()
        invariant
            i <= rows@.len() == attack_table().len(),
            forall|k: int| 0 <= k < rows@.len() ==> (#[trigger] rows@[k]).0@ == attack_table()[k].0,
            forall|k: int| 0 <= k < i ==> #[trigger] attack_table()[k].0 != t@,
        decreases rows.len() - i,
    {
        let c = chars_of(rows[i].0);
        if eq_chars(&c, t) {
            assert(attack_ids()[i as int] == t@);
            return true;
        }
        i = i + 1;
    }
    proof {
        if attack_ids().contains(t@) {
            let k = choose|k: int| 0 <= k < attack_ids().len() && attack_ids()[k] == t@;
            assert(attack_table()[k].0 == t@);
        }
    }
    false
}

/// The id, name and URL of the first row of `t` with `code`; all empty where there is none.
pub open spec fn meta_in(t: Seq<(Seq<char>, Seq<char>, Seq<char>, Seq<char>)>, code: Seq<char>) -> (Seq<char>, Seq<char>, Seq<char>)
    decreases t.len(),
{
    if t.len() == 0 {
        (Seq::empty(), Seq::empty(), Seq::empty())
    } else if t[0].0 == code {
        (t[0].1, t[0].2, t[0].3)
    } else {
        meta_in(t.drop_first(), code)
    }
}

/// The id, name and URL of an OWASP code; all empty for an unknown code.
pub open spec fn owasp_meta(code: Seq<char>) -> (Seq<char>, Seq<char>, Seq<char>) {
    meta_in(owasp_table(), code)
}

/// The known technique ids among `ts`, each once, in order of first appearance.
pub open spec fn known_once(ts: Seq<Seq<char>>) -> Seq<Seq<char>>
    decreases ts.len(),
{
    if ts.len() == 0 {
        Seq::empty()
    } else {
        let prev = known_once(ts.drop_last());
        if attack_ids().contains(ts.last()) && !prev.contains(ts.last()) {
            prev.push(ts.last())
        } else {
            prev
        }
    }
}

/// A JSON array of strings.
pub open spec fn str_array(ts: Seq<Seq<char>>) -> JsonV {
    JsonV::Array(ts.map_values(|t: Seq<char>| js(t)))
}

/// A classification: OWASP code with its id, name and URL, ATT&CK techniques and confidence.
pub open spec fn hit_value(code: Seq<char>, attack: Seq<Seq<char>>, confidence: Seq<char>) -> JsonV {
    let m = owasp_meta(code);
    JsonV::Object(
        seq![
            ("code"@, js(code)),
            ("id"@, js(m.0)),
            ("name"@, js(m.1)),
            ("url"@, js(m.2)),
            ("attack"@, str_array(known_once(attack))),
            ("confidence"@, js(confidence)),
        ],
    )
}

/// The classification of an event that maps to nothing.
pub open spec fn none_hit() -> JsonV {
    JsonV::Object(
        seq![
            ("code"@, js("none"@)),
            ("id"@, js(Seq::empty())),
            ("name"@, js(Seq::empty())),
            ("url"@, js(Seq::empty())),
            ("attack"@, str_array(Seq::empty())),
            ("confidence"@, js("none"@)),
        ],
    )
}

/// A JSON array of strings.
fn str_array_exec(ts: &Vec<Vec<char>>) -> (r: Json)
    ensures
        r@ == str_array(ts@.map_values(|t: Vec<char>| t@)),
{
    let mut out: Vec<Json> = Vec::new();
    let mut i: usize = 0;
    while i < ts.len()
        invariant
            i <= ts.len(),
            out@.len() == i,
            forall|k: int| 0 <= k < i ==> #[trigger] out@[k]@ == js(ts@[k]@),
        decreases ts.len() - i,
    {
        out.push(Json::Str(string_of(&ts[i])));
        i = i + 1;
    }
    let r = Json::Array(out);
    proof {
        lemma_array_view(r);
        assert(r@->Array_0 =~= ts@.map_values(|t: Vec<char>| t@).map_values(|t: Seq<char>| js(t)));
    }
    r
}

/// The id, name and URL of an OWASP code.
fn owasp_meta_exec(code: &Vec<char>) -> (r: (String, String, String))
    ensures
        (r.0@, r.1@, r.2@) == owasp_meta(code@),
{
    let rows = owasp_rows();
    let ghost t = owasp_table();
    let mut i: usize = 0;
    assert(t.subrange(0, t.len() as int) =~= t);
    while i < rows.len()
        invariant
            i <= rows@.len() == t.len(),
            t == owasp_table(),
            forall|k: int| 0 <= k < rows@.len() ==> (#[trigger] rows@[k]).0@ == t[k].0 && rows@[k].1@
                == t[k].1 && rows@[k].2@ == t[k].2 && rows@[k].3@ == t[k].3,
            meta_in(t, code@) == meta_in(t.subrange(i as int, t.len() as int), code@),
        decreases rows.len() - i,
    {
        let ghost rest = t.subrange(i as int, t.len() as int);
        assert(rest[0] == t[i as int]);
        assert(rest.drop_first() =~= t.subrange(i + 1, t.len() as int));
        let c = chars_of(rows[i].0);
        if eq_chars(&c, code) {
            return (String::from_str(rows[i].1), String::from_str(rows[i].2), String::from_str(rows[i].3));
        }
        i = i + 1;
    }
    (String::new(), String::new(), String::new())
}

/// The known technique ids among `ts`, each once, in order.
fn known_once_exec(ts: &Vec<Vec<char>>) -> (r: Vec<Vec<char>>)
    ensures
        r@.map_values(|t: Vec<char>| t@) == known_once(ts@.map_values(|t: Vec<char>| t@)),
{
    let ghost all = ts@.map_values(|t: Vec<char>| t@);
    let mut out: Vec<Vec<char>> = Vec::new();
    let mut i: usize = 0;
    assert(all.take(0) =~= Seq::<Seq<char>>::empty());
    assert(out@.map_values(|t: Vec<char>| t@) =~= Seq::<Seq<char>>::empty());
    while i < ts.len()
        invariant
            i <= ts.len(),
            all == ts@.map_values(|t: Vec<char>| t@),
            out@.map_values(|t: Vec<char>| t@) == known_once(all.take(i as int)),
        decreases ts.len() - i,
    {
        assert(all.take(i + 1).drop_last() =~= all.take(i as int));
        assert(all.take(i + 1).last() == ts@[i as int]@);
        let ghost prev = out@.map_values(|t: Vec<char>| t@);
        if is_known_technique(&ts[i]) && !contains_seq(&out, &ts[i]) {
            out.push(ts[i].clone());
            assert(out@.map_values(|t: Vec<char>| t@) =~= prev.push(ts@[i as int]@));
        }
        i = i + 1;
    }
    assert(all.take(ts.len() as int) =~= all);
    out
}

/// Whether `v` holds `t`.
fn contains_seq(v: &Vec<Vec<char>>, t: &Vec<char>) -> (r: bool)
    ensures
        r == v@.map_values(|x: Vec<char>| x@).contains(t@),
{
    let ghost all = v@.map_values(|x: Vec<char>| x@);
    let mut i: usize = 0;
    while i < v.len()
        invariant
            i <= v.len(),
            all == v@.map_values(|x: Vec<char>| x@),
            forall|k: int| 0 <= k < i ==> #[trigger] all[k] != t@,
        decreases v.len() - i,
    {
        if eq_chars(&v[i], t) {
            assert(all[i as int] == t@);
            return true;
        }
        i = i + 1;
    }
    false
}

/// Builds a classification.
pub fn hit(code: &str, attack: &Vec<Vec<char>>, confidence: &str) -> (r: Json)
    ensures
        r@ == hit_value(code@, attack@.map_values(|t: Vec<char>| t@), confidence@),
{
    let cc = chars_of(code);
    let (id, name, url) = owasp_meta_exec(&cc);
    let techniques = known_once_exec(attack);
    let arr = str_array_exec(&techniques);
    let mut f: Vec<(String, Json)> = Vec::new();
    f.push((String::from_str("code"), jstr_of(code)));
    f.push((String::from_str("id"), Json::Str(id)));
    f.push((String::from_str("name"), Json::Str(name)));
    f.push((String::from_str("url"), Json::Str(url)));
    f.push((String::from_str("attack"), arr));
    f.push((String::from_str("confidence"), jstr_of(confidence)));
    let r = Json::Object(f);
    proof {
        lemma_object_fview(r);
        assert(fview(f@) =~= hit_value(code@, attack@.map_values(|t: Vec<char>| t@), confidence@)->Object_0);
    }
    r
}

/// The classification of an event that maps to nothing.
pub fn none_hit_exec() -> (r: Json)
    ensures
        r@ == none_hit(),
{
    let empty: Vec<Vec<char>> = Vec::new();
    let arr = str_array_exec(&empty);
    assert(empty@.map_values(|t: Vec<char>| t@) =~= Seq::<Seq<char>>::empty());
    let mut f: Vec<(String, Json)> = Vec::new();
    f.push((String::from_str("code"), jstr_of("none")));
    f.push((String::from_str("id"), Json::Str(String::new())));
    f.push((String::from_str("name"), Json::Str(String::new())));
    f.push((String::from_str("url"), Json::Str(String::new())));
    f.push((String::from_str("attack"), arr));
    f.push((String::from_str("confidence"), jstr_of("none")));
    let r = Json::Object(f);
    proof {
        lemma_object_fview(r);
        assert(fview(f@) =~= none_hit()->Object_0);
    }
    r
}

} // verus!

verus! {

/// Engine chatter that is not an attack.
pub const NOISE_PATTERN: &'static str = "(?is)^\\s*(?:enabling body inspection|disabl(?:e|ing) body inspection|update\\s*:\\s*[+-]\\d+|(?:capi|community).{0,48}(?:blocklist|ips)|synced \\d+|loading (?:parsers|scenarios|collections)|crowdsec (?:started|version)|capacity overflow|bucket overflow)";

/// OWASP CRS rule ids; the group is the rule family.
pub const CRS_ID_PATTERN: &'static str = "\\b(?P<gid>913|920|921|930|931|932|933|934|941|942|943|944)\\d{3}\\b";

/// ATT&CK technique ids in free text.
pub const MITRE_ID_PATTERN: &'static str = "\\bT\\d{4}(?:\\.\\d{3})?\\b";

/// One technique id, case-insensitively; the group is its digits.
pub const TID_PATTERN: &'static str = "(?i)^t(\\d{4}(?:\\.\\d{3})?)$";

/// Out-of-band (log-only) evaluation.
pub const OOB_PATTERN: &'static str = "(?i)out-of-band|outofband|\\boob\\b|log-only";

/// Keys that may hold credentials.
pub const SECRET_KEY_PATTERN: &'static str = "(?i)(token|key|password|secret|authorization|credential)";

/// `name` trimmed, `""` for none.
pub open spec fn trimmed_name(name: Option<Seq<char>>) -> Seq<char> {
    trim(
        match name {
            Some(s) => s,
            None => Seq::empty(),
        },
    )
}

/// Whether an event name is engine chatter (or empty).
pub open spec fn noise(name: Option<Seq<char>>) -> bool {
    let t = trimmed_name(name);
    t.len() == 0 || regex_match(NOISE_PATTERN@, t)
}

/// Whether an event name is engine chatter rather than an attack; an empty name is.
pub fn is_noise_event(name: Option<&str>) -> (r: bool)
    ensures
        r == noise(match name { Some(s) => Some(s@), None => None }),
{
    let raw = match name {
        Some(s) => chars_of(s),
        None => Vec::new(),
    };
    let t = trim_chars(&raw);
    if t.len() == 0 {
        return true;
    }
    let ts = string_of(&t);
    re_is_match(NOISE_PATTERN, ts.as_str())
}

/// The OWASP code, techniques and confidence of a CRS rule family.
pub open spec fn crs_class_spec(gid: Seq<char>) -> Option<(Seq<char>, Seq<Seq<char>>, Seq<char>)> {
    if gid == "913"@ || gid == "920"@ || gid == "921"@ {
        Some(("A05"@, seq!["T1595"@], "medium"@))
    } else if gid == "930"@ {
        Some(("A01"@, seq!["T1190"@], "high"@))
    } else if gid == "931"@ || gid == "941"@ || gid == "942"@ || gid == "944"@ {
        Some(("A03"@, seq!["T1190"@], "high"@))
    } else if gid == "932"@ {
        Some(("A03"@, seq!["T1190"@, "T1059"@, "T1068"@], "high"@))
    } else if gid == "933"@ {
        Some(("A03"@, seq!["T1190"@, "T1059"@], "high"@))
    } else if gid == "934"@ {
        Some(("A10"@, seq!["T1190"@], "high"@))
    } else if gid == "943"@ {
        Some(("A07"@, seq!["T1110"@], "medium"@))
    } else {
        None
    }
}

/// Character vectors of string slices.
fn char_vecs(v: &[&str]) -> (r: Vec<Vec<char>>)
    ensures
        r@.map_values(|t: Vec<char>| t@) == v@.map_values(|t: &str| t@),
{
    let mut r: Vec<Vec<char>> = Vec::new();
    let mut i: usize = 0;
    while i < v.len()
        invariant
            i <= v@.len(),
            r@.len() == i,
            forall|k: int| 0 <= k < i ==> #[trigger] r@[k]@ == v@[k]@,
        decreases v.len() - i,
    {
        r.push(chars_of(v[i]));
        i = i + 1;
    }
    assert(r@.map_values(|t: Vec<char>| t@) =~= v@.map_values(|t: &str| t@));
    r
}

/// The OWASP code, techniques and confidence of a CRS rule family.
pub fn crs_class(gid: &str) -> (r: Option<(&'static str, Vec<Vec<char>>, &'static str)>)
    ensures
        match crs_class_spec(gid@) {
            Some((c, a, f)) => r matches Some((c2, a2, f2)) && c2@ == c && a2@.map_values(|t: Vec<char>| t@) == a && f2@ == f,
            None => r is None,
        },
{
    let g = chars_of(gid);
    let is = |s: &str| -> (b: bool)
        ensures
            b == (g@ == s@),
    {
        let c = chars_of(s);
        eq_chars(&g, &c)
    };
    if is("913") || is("920") || is("921") {
        let a: [&str; 1] = ["T1595"];
        assert(a@.map_values(|t: &str| t@) =~= seq!["T1595"@]);
        Some(("A05", char_vecs(&a), "medium"))
    } else if is("930") {
        let a: [&str; 1] = ["T1190"];
        assert(a@.map_values(|t: &str| t@) =~= seq!["T1190"@]);
        Some(("A01", char_vecs(&a), "high"))
    } else if is("931") || is("941") || is("942") || is("944") {
        let a: [&str; 1] = ["T1190"];
        assert(a@.map_values(|t: &str| t@) =~= seq!["T1190"@]);
        Some(("A03", char_vecs(&a), "high"))
    } else if is("932") {
        let a: [&str; 3] = ["T1190", "T1059", "T1068"];
        assert(a@.map_values(|t: &str| t@) =~= seq!["T1190"@, "T1059"@, "T1068"@]);
        Some(("A03", char_vecs(&a), "high"))
    } else if is("933") {
        let a: [&str; 2] = ["T1190", "T1059"];
        assert(a@.map_values(|t: &str| t@) =~= seq!["T1190"@, "T1059"@]);
        Some(("A03", char_vecs(&a), "high"))
    } else if is("934") {
        let a: [&str; 1] = ["T1190"];
        assert(a@.map_values(|t: &str| t@) =~= seq!["T1190"@]);
        Some(("A10", char_vecs(&a), "high"))
    } else if is("943") {
        let a: [&str; 1] = ["T1110"];
        assert(a@.map_values(|t: &str| t@) =~= seq!["T1110"@]);
        Some(("A07", char_vecs(&a), "medium"))
    } else {
        None
    }
}

} // verus!

verus! {
/// The name rules, in the order they are tried: pattern, OWASP code, techniques and
/// confidence.
pub open spec fn class_rules() -> Seq<(Seq<char>, Seq<char>, Seq<Seq<char>>, Seq<char>)> {
    seq![
        ("(?i)ssrf"@, "A10"@, seq!["T1190"@], "high"@),
        ("(?i)sqli|sql.?inject"@, "A03"@, seq!["T1190"@], "high"@),
        ("(?i)xss|cross.?site.?script"@, "A03"@, seq!["T1190"@], "high"@),
        ("(?i)rce|remote.?code|command.?inject|php.?inject|log4j|jndi"@, "A03"@, seq!["T1190"@, "T1059"@, "T1068"@], "high"@),
        ("(?i)lfi|path.?traversal|directory.?traversal|local.?file.?inclusion"@, "A01"@, seq!["T1190"@], "high"@),
        ("(?i)rfi|remote.?file.?inclusion"@, "A03"@, seq!["T1190"@], "high"@),
        ("(?i)webshell|backdoor"@, "A01"@, seq!["T1505"@, "T1505.003"@], "high"@),
        ("(?i)wordpress-uploads-listing"@, "A01"@, seq!["T1190"@], "high"@),
        ("(?i)env-access|sensitive.?files|admin.?interface|git-config"@, "A01"@, seq!["T1190"@], "high"@),
        ("(?i)wordpress.?login"@, "A07"@, seq!["T1110"@], "high"@),
        ("(?i)brute(?:[-_ ]?force)?|\\bbf\\b|[-_/]bf(?:[-_/]|$)|ssh-slow-bf|ssh-bf"@, "A07"@, seq!["T1110"@], "high"@),
        ("(?i)xmlrpc"@, "A05"@, seq!["T1595"@], "medium"@),
        ("(?i)waf.?bypass|disable.?security|impair.?defense"@, "A05"@, seq!["T1562"@], "medium"@),
        ("(?i)weak.?crypto|insecure.?tls"@, "A02"@, seq!["T1600"@], "medium"@),
        ("(?i)vpatch|cve-\\d{4}"@, "A06"@, seq!["T1190"@], "medium"@),
        ("(?i)wordpress.?scan|http-wordpress"@, "A05"@, seq!["T1595"@], "medium"@),
        ("(?i)wordpress"@, "A06"@, seq!["T1190"@], "medium"@),
        ("(?i)probing|scanner|http-crawl|bad-user-agent|open-proxy|http-scan"@, "A05"@, seq!["T1595"@], "medium"@),
    ]
}

/// Row `i` of the name rules.
fn class_rule(i: usize) -> (r: (&'static str, &'static str, Vec<Vec<char>>, &'static str))
    requires
        i < class_rules().len(),
    ensures
        r.0@ == class_rules()[i as int].0,
        r.1@ == class_rules()[i as int].1,
        r.2@.map_values(|t: Vec<char>| t@) == class_rules()[i as int].2,
        r.3@ == class_rules()[i as int].3,
{
    if i == 0 {
        let a: [&str; 1] = ["T1190"];
        assert(a@.map_values(|t: &str| t@) =~= seq!["T1190"@]);
        ("(?i)ssrf", "A10", char_vecs(&a), "high")
    } else if i == 1 {
        let a: [&str; 1] = ["T1190"];
        assert(a@.map_values(|t: &str| t@) =~= seq!["T1190"@]);
        ("(?i)sqli|sql.?inject", "A03", char_vecs(&a), "high")
    } else if i == 2 {
        let a: [&str; 1] = ["T1190"];
        assert(a@.map_values(|t: &str| t@) =~= seq!["T1190"@]);
        ("(?i)xss|cross.?site.?script", "A03", char_vecs(&a), "high")
    } else if i == 3 {
        let a: [&str; 3] = ["T1190", "T1059", "T1068"];
        assert(a@.map_values(|t: &str| t@) =~= seq!["T1190"@, "T1059"@, "T1068"@]);
        ("(?i)rce|remote.?code|command.?inject|php.?inject|log4j|jndi", "A03", char_vecs(&a), "high")
    } else if i == 4 {
        let a: [&str; 1] = ["T1190"];
        assert(a@.map_values(|t: &str| t@) =~= seq!["T1190"@]);
        ("(?i)lfi|path.?traversal|directory.?traversal|local.?file.?inclusion", "A01", char_vecs(&a), "high")
    } else if i == 5 {
        let a: [&str; 1] = ["T1190"];
        assert(a@.map_values(|t: &str| t@) =~= seq!["T1190"@]);
        ("(?i)rfi|remote.?file.?inclusion", "A03", char_vecs(&a), "high")
    } else if i == 6 {
        let a: [&str; 2] = ["T1505", "T1505.003"];
        assert(a@.map_values(|t: &str| t@) =~= seq!["T1505"@, "T1505.003"@]);
        ("(?i)webshell|backdoor", "A01", char_vecs(&a), "high")
    } else if i == 7 {
        let a: [&str; 1] = ["T1190"];
        assert(a@.map_values(|t: &str| t@) =~= seq!["T1190"@]);
        ("(?i)wordpress-uploads-listing", "A01", char_vecs(&a), "high")
    } else if i == 8 {
        let a: [&str; 1] = ["T1190"];
        assert(a@.map_values(|t: &str| t@) =~= seq!["T1190"@]);
        ("(?i)env-access|sensitive.?files|admin.?interface|git-config", "A01", char_vecs(&a), "high")
    } else if i == 9 {
        let a: [&str; 1] = ["T1110"];
        assert(a@.map_values(|t: &str| t@) =~= seq!["T1110"@]);
        ("(?i)wordpress.?login", "A07", char_vecs(&a), "high")
    } else if i == 10 {
        let a: [&str; 1] = ["T1110"];
        assert(a@.map_values(|t: &str| t@) =~= seq!["T1110"@]);
        ("(?i)brute(?:[-_ ]?force)?|\\bbf\\b|[-_/]bf(?:[-_/]|$)|ssh-slow-bf|ssh-bf", "A07", char_vecs(&a), "high")
    } else if i == 11 {
        let a: [&str; 1] = ["T1595"];
        assert(a@.map_values(|t: &str| t@) =~= seq!["T1595"@]);
        ("(?i)xmlrpc", "A05", char_vecs(&a), "medium")
    } else if i == 12 {
        let a: [&str; 1] = ["T1562"];
        assert(a@.map_values(|t: &str| t@) =~= seq!["T1562"@]);
        ("(?i)waf.?bypass|disable.?security|impair.?defense", "A05", char_vecs(&a), "medium")
    } else if i == 13 {
        let a: [&str; 1] = ["T1600"];
        assert(a@.map_values(|t: &str| t@) =~= seq!["T1600"@]);
        ("(?i)weak.?crypto|insecure.?tls", "A02", char_vecs(&a), "medium")
    } else if i == 14 {
        let a: [&str; 1] = ["T1190"];
        assert(a@.map_values(|t: &str| t@) =~= seq!["T1190"@]);
        ("(?i)vpatch|cve-\\d{4}", "A06", char_vecs(&a), "medium")
    } else if i == 15 {
        let a: [&str; 1] = ["T1595"];
        assert(a@.map_values(|t: &str| t@) =~= seq!["T1595"@]);
        ("(?i)wordpress.?scan|http-wordpress", "A05", char_vecs(&a), "medium")
    } else if i == 16 {
        let a: [&str; 1] = ["T1190"];
        assert(a@.map_values(|t: &str| t@) =~= seq!["T1190"@]);
        ("(?i)wordpress", "A06", char_vecs(&a), "medium")
    } else {
        let a: [&str; 1] = ["T1595"];
        assert(a@.map_values(|t: &str| t@) =~= seq!["T1595"@]);
        ("(?i)probing|scanner|http-crawl|bad-user-agent|open-proxy|http-scan", "A05", char_vecs(&a), "medium")
    }
}

/// Index of the first name rule whose pattern matches `text`, from row `from` on.
pub open spec fn first_rule(text: Seq<char>, from: nat) -> Option<int>
    decreases class_rules().len() - from,
{
    if from >= class_rules().len() {
        None
    } else if regex_match(class_rules()[from as int].0, text) {
        Some(from as int)
    } else {
        first_rule(text, from + 1)
    }
}

/// Finds the first name rule that matches `text`.
fn first_rule_exec(text: &str) -> (r: Option<usize>)
    ensures
        match first_rule(text@, 0) {
            Some(i) => r == Some(i as usize) && 0 <= i < class_rules().len(),
            None => r is None,
        },
{
    let n: usize = 18;
    assert(class_rules().len() == 18);
    let mut i: usize = 0;
    while i < n
        invariant
            i <= n == class_rules().len(),
            first_rule(text@, 0) == first_rule(text@, i as nat),
        decreases n - i,
    {
        let (p, _, _, _) = class_rule(i);
        if re_is_match(p, text) {
            return Some(i);
        }
        i = i + 1;
    }
    None
}

} // verus!

verus! {

/// The concatenation of a sequence of sequences.
pub open spec fn concat_all<A>(ss: Seq<Seq<A>>) -> Seq<A>
    decreases ss.len(),
{
    if ss.len() == 0 {
        Seq::empty()
    } else {
        concat_all(ss.drop_last()) + ss.last()
    }
}

/// `s` without leading double quotes.
pub open spec fn ltrim_quote(s: Seq<char>) -> Seq<char>
    decreases s.len(),
{
    if s.len() > 0 && s[0] == '"' {
        ltrim_quote(s.drop_first())
    } else {
        s
    }
}

/// `s` without trailing double quotes.
pub open spec fn rtrim_quote(s: Seq<char>) -> Seq<char>
    decreases s.len(),
{
    if s.len() > 0 && s.last() == '"' {
        rtrim_quote(s.drop_last())
    } else {
        s
    }
}

/// `s` without double quotes at either end (`trim_matches('"')`).
pub open spec fn unquote(s: Seq<char>) -> Seq<char> {
    rtrim_quote(ltrim_quote(s))
}

/// The texts searched for technique ids in an alert's `labels` or `tags`.
pub open spec fn label_chunks(v: Option<JsonV>) -> Seq<Seq<char>> {
    match v {
        None => Seq::empty(),
        Some(JsonV::Array(a)) => a.map_values(|x: JsonV| unquote(jtext(x))),
        Some(x) => seq![unquote(jtext(x))],
    }
}

/// The texts searched in one entry of an alert's `meta` list: its `key` and `value`.
pub open spec fn meta_item_chunks(x: JsonV) -> Seq<Seq<char>> {
    if x is Object {
        (match jget(x, "key"@) {
            Some(k) => seq![jtext(k)],
            None => Seq::empty(),
        }) + (match jget(x, "value"@) {
            Some(v) => seq![jtext(v)],
            None => Seq::empty(),
        })
    } else {
        Seq::empty()
    }
}

/// The texts searched in an alert's `meta`: a list of key/value objects, or an object.
pub open spec fn meta_chunks(v: Option<JsonV>) -> Seq<Seq<char>> {
    match v {
        Some(JsonV::Array(list)) => concat_all(list.map_values(|x: JsonV| meta_item_chunks(x))),
        Some(JsonV::Object(f)) => concat_all(f.map_values(|e: (Seq<char>, JsonV)| seq![e.0, jtext(e.1)])),
        _ => Seq::empty(),
    }
}

/// The texts of an alert searched for ATT&CK technique ids.
pub open spec fn alert_chunks(alert: Option<JsonV>) -> Seq<Seq<char>> {
    match alert {
        None => Seq::empty(),
        Some(a) => label_chunks(jget(a, "labels"@)) + label_chunks(jget(a, "tags"@)) + meta_chunks(jget(a, "meta"@)),
    }
}

/// The technique id a match of the id pattern stands for.
pub open spec fn tid_of(m: Seq<char>) -> Seq<Seq<char>> {
    match regex_groups(TID_PATTERN@, m) {
        Some(g) => if g.len() > 1 && g[1] is Some {
            seq!["T"@ + g[1]->Some_0]
        } else {
            Seq::empty()
        },
        None => Seq::empty(),
    }
}

/// The technique ids written in one text.
pub open spec fn chunk_tids(c: Seq<char>) -> Seq<Seq<char>> {
    concat_all(regex_all(MITRE_ID_PATTERN@, c).map_values(|m: Seq<char>| tid_of(m)))
}

/// The known techniques an alert's labels, tags and meta name, each once, in order.
pub open spec fn mitre_spec(alert: Option<JsonV>) -> Seq<Seq<char>> {
    known_once(concat_all(alert_chunks(alert).map_values(|c: Seq<char>| chunk_tids(c))))
}

/// The views of character vectors.
pub open spec fn vviews(v: Seq<Vec<char>>) -> Seq<Seq<char>> {
    v.map_values(|t: Vec<char>| t@)
}

/// `s` without double quotes at either end.
fn unquote_exec(s: &Vec<char>) -> (r: Vec<char>)
    ensures
        r@ == unquote(s@),
{
    let mut a: usize = 0;
    assert(s@.subrange(0, s@.len() as int) =~= s@);
    while a < s.len() && s[a] == '"'
        invariant
            a <= s@.len(),
            ltrim_quote(s@) == ltrim_quote(s@.subrange(a as int, s@.len() as int)),
        decreases s.len() - a,
    {
        assert(s@.subrange(a as int, s@.len() as int).drop_first() =~= s@.subrange(a + 1, s@.len() as int));
        a = a + 1;
    }
    let ghost l = s@.subrange(a as int, s@.len() as int);
    assert(ltrim_quote(l) == l);
    let mut b: usize = s.len();
    assert(l.subrange(0, (b - a) as int) =~= l);
    while b > a && s[b - 1] == '"'
        invariant
            a <= b <= s@.len(),
            l == s@.subrange(a as int, s@.len() as int),
            rtrim_quote(l) == rtrim_quote(l.subrange(0, (b - a) as int)),
        decreases b,
    {
        assert(l.subrange(0, (b - a) as int).drop_last() =~= l.subrange(0, (b - a) - 1));
        b = b - 1;
    }
    assert(l.subrange(0, (b - a) as int) =~= s@.subrange(a as int, b as int));
    crate::text::slice_chars(s, a, b)
}

/// Appends the texts of `labels` or `tags`.
fn push_label_chunks(out: &mut Vec<Vec<char>>, v: Option<&Json>)
    ensures
        vviews(final(out)@) == vviews(old(out)@) + label_chunks(match v { Some(j) => Some(j@), None => None }),
{
    let ghost o = vviews(out@);
    match v {
        None => {
            assert(vviews(out@) =~= o + Seq::<Seq<char>>::empty());
        },
        Some(j) => match j {
            Json::Array(items) => {
                proof {
                    lemma_array_view(*j);
                }
                let ghost a = j@->Array_0;
                let mut i: usize = 0;
                while i < items.len()
                    invariant
                        i <= items@.len() == a.len(),
                        *j == Json::Array(*items),
                        a == j@->Array_0,
                        forall|k: int| 0 <= k < a.len() ==> #[trigger] a[k] == items@[k]@,
                        vviews(out@) == o + a.take(i as int).map_values(|x: JsonV| unquote(jtext(x))),
                    decreases items.len() - i,
                {
                    let t = json_text(&items[i]);
                    let tc = chars_of(t.as_str());
                    let u = unquote_exec(&tc);
                    let ghost before = out@;
                    let ghost uv = u@;
                    out.push(u);
                    assert(vviews(out@) =~= vviews(before).push(uv));
                    assert(a.take(i + 1).map_values(|x: JsonV| unquote(jtext(x))) =~= a.take(i as int).map_values(
                        |x: JsonV| unquote(jtext(x)),
                    ).push(unquote(jtext(a[i as int]))));
                    i = i + 1;
                }
                assert(a.take(a.len() as int) =~= a);
            },
            other => {
                let t = json_text(other);
                let tc = chars_of(t.as_str());
                let u = unquote_exec(&tc);
                let ghost uv = u@;
                out.push(u);
                assert(vviews(out@) =~= o + seq![uv]);
            },
        },
    }
}

} // verus!

verus! {

/// Concatenating one more part.
pub proof fn lemma_concat_push<A>(p: Seq<Seq<A>>, y: Seq<A>)
    ensures
        concat_all(p.push(y)) == concat_all(p) + y,
{
    assert(p.push(y).drop_last() =~= p);
}

/// Appends one text.
fn push_text(out: &mut Vec<Vec<char>>, t: Vec<char>)
    ensures
        vviews(final(out)@) == vviews(old(out)@) + seq![t@],
{
    let ghost before = out@;
    let ghost tv = t@;
    out.push(t);
    assert(vviews(out@) =~= vviews(before) + seq![tv]);
}

/// The compact JSON text of a value, as characters.
fn text_of(j: &Json) -> (r: Vec<char>)
    ensures
        r@ == jtext(j@),
{
    let t = json_text(j);
    chars_of(t.as_str())
}

/// Appends the texts of one `meta` entry.
fn push_meta_item(out: &mut Vec<Vec<char>>, x: &Json)
    ensures
        vviews(final(out)@) == vviews(old(out)@) + meta_item_chunks(x@),
{
    let ghost o = vviews(out@);
    if !is_object(x) {
        assert(vviews(out@) =~= o + Seq::<Seq<char>>::empty());
        return;
    }
    let ghost mid = o + match jget(x@, "key"@) {
        Some(k) => seq![jtext(k)],
        None => Seq::<Seq<char>>::empty(),
    };
    match get(x, "key") {
        Some(k) => push_text(out, text_of(k)),
        None => {},
    }
    assert(vviews(out@) =~= mid);
    match get(x, "value") {
        Some(v) => push_text(out, text_of(v)),
        None => {},
    }
    assert(vviews(out@) =~= o + meta_item_chunks(x@));
}

/// Appends the texts of an alert's `meta`.
fn push_meta_chunks(out: &mut Vec<Vec<char>>, v: Option<&Json>)
    ensures
        vviews(final(out)@) == vviews(old(out)@) + meta_chunks(match v { Some(j) => Some(j@), None => None }),
{
    let ghost o = vviews(out@);
    match v {
        Some(j) => match j {
            Json::Array(list) => {
                proof {
                    lemma_array_view(*j);
                }
                let ghost a = j@->Array_0;
                let mut i: usize = 0;
                assert(o + concat_all(a.take(0).map_values(|x: JsonV| meta_item_chunks(x))) =~= o);
                while i < list.len()
                    invariant
                        i <= list@.len() == a.len(),
                        a == j@->Array_0,
                        forall|k: int| 0 <= k < a.len() ==> #[trigger] a[k] == list@[k]@,
                        vviews(out@) == o + concat_all(a.take(i as int).map_values(|x: JsonV| meta_item_chunks(x))),
                    decreases list.len() - i,
                {
                    assert(a.take(i + 1).map_values(|x: JsonV| meta_item_chunks(x)) =~= a.take(i as int).map_values(
                        |x: JsonV| meta_item_chunks(x),
                    ).push(meta_item_chunks(a[i as int])));
                    let ghost before = vviews(out@);
                    push_meta_item(out, &list[i]);
                    proof {
                        let p = a.take(i as int).map_values(|x: JsonV| meta_item_chunks(x));
                        lemma_concat_push(p, meta_item_chunks(a[i as int]));
                        assert(vviews(out@) =~= o + concat_all(p.push(meta_item_chunks(a[i as int]))));
                    }
                    i = i + 1;
                }
                assert(a.take(a.len() as int) =~= a);
            },
            Json::Object(fields) => {
                proof {
                    lemma_object_view(*j);
                }
                let ghost f = j@->Object_0;
                let mut i: usize = 0;
                assert(o + concat_all(f.take(0).map_values(|e: (Seq<char>, JsonV)| seq![e.0, jtext(e.1)])) =~= o);
                while i < fields.len()
                    invariant
                        i <= fields@.len() == f.len(),
                        f == j@->Object_0,
                        forall|k: int| 0 <= k < f.len() ==> #[trigger] f[k] == (fields@[k].0@, fields@[k].1@),
                        vviews(out@) == o + concat_all(f.take(i as int).map_values(|e: (Seq<char>, JsonV)| seq![e.0, jtext(e.1)])),
                    decreases fields.len() - i,
                {
                    assert(f.take(i + 1).map_values(|e: (Seq<char>, JsonV)| seq![e.0, jtext(e.1)]) =~= f.take(i as int).map_values(
                        |e: (Seq<char>, JsonV)| seq![e.0, jtext(e.1)],
                    ).push(seq![f[i as int].0, jtext(f[i as int].1)]));
                    let ghost before = vviews(out@);
                    push_text(out, chars_of(fields[i].0.as_str()));
                    push_text(out, text_of(&fields[i].1));
                    assert(vviews(out@) =~= before + seq![f[i as int].0, jtext(f[i as int].1)]);
                    proof {
                        let p = f.take(i as int).map_values(|e: (Seq<char>, JsonV)| seq![e.0, jtext(e.1)]);
                        lemma_concat_push(p, seq![f[i as int].0, jtext(f[i as int].1)]);
                        assert(vviews(out@) =~= o + concat_all(p.push(seq![f[i as int].0, jtext(f[i as int].1)])));
                    }
                    i = i + 1;
                }
                assert(f.take(f.len() as int) =~= f);
            },
            _ => {
                assert(vviews(out@) =~= o + Seq::<Seq<char>>::empty());
            },
        },
        None => {
            assert(vviews(out@) =~= o + Seq::<Seq<char>>::empty());
        },
    }
}

/// The texts of an alert searched for technique ids.
fn alert_chunks_exec(alert: Option<&Json>) -> (r: Vec<Vec<char>>)
    ensures
        vviews(r@) == alert_chunks(match alert { Some(j) => Some(j@), None => None }),
{
    let mut out: Vec<Vec<char>> = Vec::new();
    assert(vviews(out@) =~= Seq::<Seq<char>>::empty());
    match alert {
        None => {},
        Some(a) => {
            push_label_chunks(&mut out, get(a, "labels"));
            push_label_chunks(&mut out, get(a, "tags"));
            push_meta_chunks(&mut out, get(a, "meta"));
            assert(vviews(out@) =~= alert_chunks(Some(a@)));
        },
    }
    out
}

/// The technique ids written in one text.
fn chunk_tids_exec(c: &Vec<char>) -> (r: Vec<Vec<char>>)
    ensures
        vviews(r@) == chunk_tids(c@),
{
    let cs = string_of(c);
    let ms = re_find_all(MITRE_ID_PATTERN, cs.as_str());
    let ghost all = regex_all(MITRE_ID_PATTERN@, c@);
    let mut out: Vec<Vec<char>> = Vec::new();
    let mut i: usize = 0;
    assert(concat_all(all.take(0).map_values(|m: Seq<char>| tid_of(m))) =~= Seq::<Seq<char>>::empty());
    assert(vviews(out@) =~= Seq::<Seq<char>>::empty());
    while i < ms.len()
        invariant
            i <= ms@.len() == all.len(),
            all == regex_all(MITRE_ID_PATTERN@, c@),
            forall|k: int| 0 <= k < ms@.len() ==> #[trigger] ms@[k]@ == all[k],
            vviews(out@) == concat_all(all.take(i as int).map_values(|m: Seq<char>| tid_of(m))),
        decreases ms.len() - i,
    {
        assert(all.take(i + 1).map_values(|m: Seq<char>| tid_of(m)) =~= all.take(i as int).map_values(
            |m: Seq<char>| tid_of(m),
        ).push(tid_of(all[i as int])));
        let ghost before = vviews(out@);
        match re_captures(TID_PATTERN, ms[i].as_str()) {
            Some(g) => {
                if g.len() > 1 {
                    match &g[1] {
                        Some(d) => {
                            let mut t: Vec<char> = Vec::new();
                            append_str(&mut t, "T");
                            append_str(&mut t, d.as_str());
                            push_text(&mut out, t);
                        },
                        None => {
                            assert(vviews(out@) =~= before + Seq::<Seq<char>>::empty());
                        },
                    }
                } else {
                    assert(vviews(out@) =~= before + Seq::<Seq<char>>::empty());
                }
            },
            None => {
                assert(vviews(out@) =~= before + Seq::<Seq<char>>::empty());
            },
        }
        proof {
            let p = all.take(i as int).map_values(|m: Seq<char>| tid_of(m));
            lemma_concat_push(p, tid_of(all[i as int]));
            assert(vviews(out@) =~= concat_all(p.push(tid_of(all[i as int]))));
        }
        i = i + 1;
    }
    assert(all.take(all.len() as int) =~= all);
    out
}

/// Appends texts.
fn append_texts(out: &mut Vec<Vec<char>>, ts: &Vec<Vec<char>>)
    ensures
        vviews(final(out)@) == vviews(old(out)@) + vviews(ts@),
{
    let ghost before = vviews(out@);
    let mut k: usize = 0;
    assert(vviews(ts@).take(0) =~= Seq::<Seq<char>>::empty());
    assert(before + Seq::<Seq<char>>::empty() =~= before);
    while k < ts.len()
        invariant
            k <= ts.len(),
            vviews(out@) == before + vviews(ts@).take(k as int),
        decreases ts.len() - k,
    {
        push_text(out, ts[k].clone());
        assert(vviews(ts@).take(k + 1) =~= vviews(ts@).take(k as int) + seq![ts@[k as int]@]);
        assert(before + vviews(ts@).take(k + 1) =~= before + vviews(ts@).take(k as int) + seq![ts@[k as int]@]);
        k = k + 1;
    }
    assert(vviews(ts@).take(ts.len() as int) =~= vviews(ts@));
}

/// The known ATT&CK techniques an alert's labels, tags and meta name, each once, in order.
pub fn mitre_from_alert(alert: Option<&Json>) -> (r: Vec<Vec<char>>)
    ensures
        vviews(r@) == mitre_spec(match alert { Some(j) => Some(j@), None => None }),
{
    let chunks = alert_chunks_exec(alert);
    let ghost cv = vviews(chunks@);
    let mut cands: Vec<Vec<char>> = Vec::new();
    let mut i: usize = 0;
    assert(concat_all(cv.take(0).map_values(|c: Seq<char>| chunk_tids(c))) =~= Seq::<Seq<char>>::empty());
    assert(vviews(cands@) =~= Seq::<Seq<char>>::empty());
    while i < chunks.len()
        invariant
            i <= chunks@.len() == cv.len(),
            cv == vviews(chunks@),
            vviews(cands@) == concat_all(cv.take(i as int).map_values(|c: Seq<char>| chunk_tids(c))),
        decreases chunks.len() - i,
    {
        assert(cv.take(i + 1).map_values(|c: Seq<char>| chunk_tids(c)) =~= cv.take(i as int).map_values(
            |c: Seq<char>| chunk_tids(c),
        ).push(chunk_tids(cv[i as int])));
        let ts = chunk_tids_exec(&chunks[i]);
        let ghost before = vviews(cands@);
        append_texts(&mut cands, &ts);
        proof {
            let p = cv.take(i as int).map_values(|c: Seq<char>| chunk_tids(c));
            lemma_concat_push(p, chunk_tids(cv[i as int]));
        }
        i = i + 1;
    }
    assert(cv.take(cv.len() as int) =~= cv);
    known_once_exec(&cands)
}

} // verus!

verus! {

/// The CRS classification of a name holding a CRS rule id.
pub open spec fn crs_hit(text: Seq<char>) -> Option<(Seq<char>, Seq<Seq<char>>, Seq<char>)> {
    match regex_groups(CRS_ID_PATTERN@, text) {
        Some(g) => if g.len() > 1 && g[1] is Some {
            crs_class_spec(g[1]->Some_0)
        } else {
            None
        },
        None => None,
    }
}

/// Field `k` of a classification is the string `s`.
pub open spec fn field_eq(r: JsonV, k: Seq<char>, s: Seq<char>) -> bool {
    jstr(jget(r, k)) == Some(s)
}

/// What `classify` answers for an event name and (optionally) its alert: the OWASP
/// category and ATT&CK techniques, first from a CRS rule id, else from the name rules; hub
/// techniques named by the alert replace the derived ones; out-of-band detections are at
/// most of medium confidence.
pub open spec fn classify_spec(name: Option<Seq<char>>, alert: Option<JsonV>) -> JsonV {
    let text = trimmed_name(name);
    if text.len() == 0 || noise(Some(text)) {
        none_hit()
    } else {
        let base = match crs_hit(text) {
            Some((c, a, f)) => hit_value(c, a, f),
            None => none_hit(),
        };
        let named = if field_eq(base, "code"@, "none"@) {
            match first_rule(text, 0) {
                Some(i) => hit_value(class_rules()[i].1, class_rules()[i].2, class_rules()[i].3),
                None => base,
            }
        } else {
            base
        };
        let hub = mitre_spec(alert);
        let with_hub = if hub.len() > 0 {
            let r = set_field(named, "attack"@, str_array(hub));
            if field_eq(r, "confidence"@, "none"@) {
                set_field(r, "confidence"@, js("medium"@))
            } else {
                r
            }
        } else {
            named
        };
        if !field_eq(with_hub, "code"@, "none"@) && regex_match(OOB_PATTERN@, text) {
            let a = if field_eq(with_hub, "confidence"@, "high"@) {
                set_field(with_hub, "confidence"@, js("medium"@))
            } else {
                with_hub
            };
            if hub.len() == 0 && (match jget(a, "attack"@) {
                Some(JsonV::Array(x)) => x.len() > 0,
                _ => false,
            }) {
                set_field(a, "attack"@, str_array(seq!["T1595"@]))
            } else {
                a
            }
        } else {
            with_hub
        }
    }
}

/// Whether field `k` of `r` is the string `s`.
fn field_eq_exec(r: &Json, k: &str, s: &str) -> (b: bool)
    ensures
        b == field_eq(r@, k@, s@),
{
    let c = chars_of(s);
    field_is(r, k, &c)
}

/// Classifies a CrowdSec event name (a scenario, AppSec rule or CRS id) into an OWASP Top
/// 10:2021 category and ATT&CK techniques; the alert, where given, can name techniques.
pub fn classify(name: Option<&str>, alert: Option<&Json>) -> (r: Json)
    ensures
        r@ == classify_spec(match name { Some(s) => Some(s@), None => None }, match alert { Some(j) => Some(j@), None => None }),
{
    let raw = match name {
        Some(s) => chars_of(s),
        None => Vec::new(),
    };
    let t = trim_chars(&raw);
    let text = string_of(&t);
    if t.len() == 0 || is_noise_event(Some(text.as_str())) {
        return none_hit_exec();
    }
    let base = match re_captures(CRS_ID_PATTERN, text.as_str()) {
        Some(g) => {
            if g.len() > 1 {
                match &g[1] {
                    Some(gid) => match crs_class(gid.as_str()) {
                        Some((c, a, f)) => hit(c, &a, f),
                        None => none_hit_exec(),
                    },
                    None => none_hit_exec(),
                }
            } else {
                none_hit_exec()
            }
        },
        None => none_hit_exec(),
    };
    let named = if field_eq_exec(&base, "code", "none") {
        match first_rule_exec(text.as_str()) {
            Some(i) => {
                let (_, c, a, f) = class_rule(i);
                hit(c, &a, f)
            },
            None => base,
        }
    } else {
        base
    };
    let hub = mitre_from_alert(alert);
    let with_hub = if hub.len() > 0 {
        let arr = str_array_exec(&hub);
        let r = crate::json::json_set(named, "attack", arr);
        if field_eq_exec(&r, "confidence", "none") {
            crate::json::json_set(r, "confidence", jstr_of("medium"))
        } else {
            r
        }
    } else {
        named
    };
    if !field_eq_exec(&with_hub, "code", "none") && re_is_match(OOB_PATTERN, text.as_str()) {
        let a = if field_eq_exec(&with_hub, "confidence", "high") {
            crate::json::json_set(with_hub, "confidence", jstr_of("medium"))
        } else {
            with_hub
        };
        if hub.len() == 0 && crate::json::field_nonempty_array(&a, "attack") {
            let one: [&str; 1] = ["T1595"];
            let v = char_vecs(&one);
            assert(one@.map_values(|t: &str| t@) =~= seq!["T1595"@]);
            let arr = str_array_exec(&v);
            crate::json::json_set(a, "attack", arr)
        } else {
            a
        }
    } else {
        with_hub
    }
}

} // verus!

verus! {

/// A value with every object entry whose key matches `pat` removed, at any depth.
pub open spec fn scrub_by(pat: Seq<char>, v: JsonV) -> JsonV
    decreases v, 1int, 0int,
{
    match v {
        JsonV::Object(f) => JsonV::Object(scrub_fields(pat, v, f.len())),
        JsonV::Array(a) => JsonV::Array(
            Seq::new(
                a.len(),
                |i: int|
                    if 0 <= i < a.len() {
                        proof {
                            assert(decreases_to!(v => a[i]));
                        }
                        scrub_by(pat, a[i])
                    } else {
                        JsonV::Null
                    },
            ),
        ),
        _ => v,
    }
}

/// The kept, scrubbed entries among the first `n` of an object.
pub open spec fn scrub_fields(pat: Seq<char>, v: JsonV, n: nat) -> Seq<(Seq<char>, JsonV)>
    decreases v, 0int, n,
{
    match v {
        JsonV::Object(f) => if n == 0 || n > f.len() {
            Seq::empty()
        } else {
            let prev = scrub_fields(pat, v, (n - 1) as nat);
            let e = f[n - 1];
            proof {
                assert(decreases_to!(v => f[n - 1].1));
            }
            if regex_match(pat, e.0) {
                prev
            } else {
                prev.push((e.0, scrub_by(pat, e.1)))
            }
        },
        _ => Seq::empty(),
    }
}

/// A value with every object entry whose key may hold a credential removed, at any depth.
pub open spec fn scrub_spec(v: JsonV) -> JsonV {
    scrub_by(SECRET_KEY_PATTERN@, v)
}

/// Drops every object entry whose key may hold a token, key, password, secret,
/// authorization or credential, at any depth.
pub fn scrub(value: Json) -> (r: Json)
    ensures
        r@ == scrub_spec(value@),
{
    scrub_ref(SECRET_KEY_PATTERN, &value)
}

/// Drops, at any depth, every object entry whose key matches `pattern`.
pub fn scrub_ref(pattern: &str, value: &Json) -> (r: Json)
    ensures
        r@ == scrub_by(pattern@, value@),
    decreases value,
{
    match value {
        Json::Object(fields) => {
            proof {
                lemma_object_view(*value);
            }
            let ghost v = value@;
            let ghost f = v->Object_0;
            let mut out: Vec<(String, Json)> = Vec::new();
            let mut i: usize = 0;
            assert(fview(out@) =~= scrub_fields(pattern@, v, 0));
            while i < fields.len()
                invariant
                    i <= fields@.len() == f.len(),
                    v == value@,
                    *value == Json::Object(*fields),
                    v == JsonV::Object(f),
                    forall|k: int| 0 <= k < f.len() ==> #[trigger] f[k] == (fields@[k].0@, fields@[k].1@),
                    fview(out@) == scrub_fields(pattern@, v, i as nat),
                decreases fields.len() - i,
            {
                proof {
                    assert(decreases_to!(*value => (*value)->Object_0));
                    assert(decreases_to!(*fields => fields@[i as int]));
                    assert(decreases_to!(fields@[i as int] => fields@[i as int].1));
                }
                let ghost before = fview(out@);
                if !re_is_match(pattern, fields[i].0.as_str()) {
                    let sv = scrub_ref(pattern, &fields[i].1);
                    out.push((fields[i].0.clone(), sv));
                    assert(fview(out@) =~= before.push((f[i as int].0, scrub_by(pattern@, f[i as int].1))));
                }
                i = i + 1;
            }
            let r = Json::Object(out);
            proof {
                lemma_object_fview(r);
            }
            r
        },
        Json::Array(items) => {
            proof {
                lemma_array_view(*value);
            }
            let ghost a = value@->Array_0;
            let mut out: Vec<Json> = Vec::new();
            let mut i: usize = 0;
            while i < items.len()
                invariant
                    i <= items@.len() == a.len(),
                    *value == Json::Array(*items),
                    a == value@->Array_0,
                    forall|k: int| 0 <= k < a.len() ==> #[trigger] a[k] == items@[k]@,
                    out@.len() == i,
                    forall|k: int| 0 <= k < i ==> #[trigger] out@[k]@ == scrub_by(pattern@, a[k]),
                decreases items.len() - i,
            {
                proof {
                    assert(decreases_to!(*value => (*value)->Array_0));
                    assert(decreases_to!(*items => items@[i as int]));
                }
                out.push(scrub_ref(pattern, &items[i]));
                i = i + 1;
            }
            let r = Json::Array(out);
            proof {
                lemma_array_view(r);
                assert(r@->Array_0 =~= scrub_by(pattern@, value@)->Array_0);
            }
            r
        },
        _ => clone_json(value),
    }
}

} // verus!

verus! {

/// Character vectors of string slices.
pub fn char_vecs_pub(v: &[&str]) -> (r: Vec<Vec<char>>)
    ensures
        vviews(r@) == v@.map_values(|t: &str| t@),
{
    let r = char_vecs(v);
    assert(vviews(r@) =~= r@.map_values(|t: Vec<char>| t@));
    r
}

/// A JSON array of strings.
pub fn str_array_pub(ts: &Vec<Vec<char>>) -> (r: Json)
    ensures
        r@ == str_array(vviews(ts@)),
{
    str_array_exec(ts)
}

} // verus!

verus! {

/// Whether no object key anywhere inside `v` matches `pat`.
pub open spec fn clean_by(pat: Seq<char>, v: JsonV) -> bool
    decreases v, 1int, 0int,
{
    match v {
        JsonV::Object(f) => clean_fields(pat, v, f.len()),
        JsonV::Array(a) => clean_items(pat, v, a.len()),
        _ => true,
    }
}

/// Whether the first `n` entries of object `v` have keys not matching `pat` and clean values.
pub open spec fn clean_fields(pat: Seq<char>, v: JsonV, n: nat) -> bool
    decreases v, 0int, n,
{
    match v {
        JsonV::Object(f) => if n == 0 || n > f.len() {
            true
        } else {
            proof {
                assert(decreases_to!(v => f[n - 1].1));
            }
            clean_fields(pat, v, (n - 1) as nat) && !regex_match(pat, f[n - 1].0) && clean_by(pat, f[n - 1].1)
        },
        _ => true,
    }
}

/// Whether the first `n` items of array `v` are clean.
pub open spec fn clean_items(pat: Seq<char>, v: JsonV, n: nat) -> bool
    decreases v, 0int, n,
{
    match v {
        JsonV::Array(a) => if n == 0 || n > a.len() {
            true
        } else {
            proof {
                assert(decreases_to!(v => a[n - 1]));
            }
            clean_items(pat, v, (n - 1) as nat) && clean_by(pat, a[n - 1])
        },
        _ => true,
    }
}

proof fn lemma_clean_fields_all(pat: Seq<char>, g: Seq<(Seq<char>, JsonV)>, n: nat)
    requires
        n <= g.len(),
    ensures
        clean_fields(pat, JsonV::Object(g), n) <==> (forall|j: int|
            0 <= j < n ==> !regex_match(pat, #[trigger] g[j].0) && clean_by(pat, g[j].1)),
    decreases n,
{
    let v = JsonV::Object(g);
    if n > 0 {
        lemma_clean_fields_all(pat, g, (n - 1) as nat);
        assert(clean_fields(pat, v, n) == (clean_fields(pat, v, (n - 1) as nat) && !regex_match(pat, g[n - 1].0)
            && clean_by(pat, g[n - 1].1)));
        if clean_fields(pat, v, n) {
            assert forall|j: int| 0 <= j < n implies !regex_match(pat, #[trigger] g[j].0) && clean_by(pat, g[j].1) by {
                if j < n - 1 {
                    assert(0 <= j < n - 1);
                }
            }
        } else {
            if !clean_fields(pat, v, (n - 1) as nat) {
                let j = choose|j: int| 0 <= j < n - 1 && !(!regex_match(pat, #[trigger] g[j].0) && clean_by(pat, g[j].1));
                assert(0 <= j < n);
            }
        }
    }
}

proof fn lemma_clean_items_all(pat: Seq<char>, a: Seq<JsonV>, n: nat)
    requires
        n <= a.len(),
    ensures
        clean_items(pat, JsonV::Array(a), n) <==> (forall|j: int| 0 <= j < n ==> clean_by(pat, #[trigger] a[j])),
    decreases n,
{
    if n > 0 {
        lemma_clean_items_all(pat, a, (n - 1) as nat);
    }
}

proof fn lemma_scrub_fields_from(pat: Seq<char>, f: Seq<(Seq<char>, JsonV)>, n: nat)
    requires
        n <= f.len(),
    ensures
        forall|j: int|
            0 <= j < scrub_fields(pat, JsonV::Object(f), n).len() ==> exists|k: int|
                0 <= k < n && !regex_match(pat, f[k].0) && #[trigger] scrub_fields(pat, JsonV::Object(f), n)[j]
                    == (f[k].0, scrub_by(pat, f[k].1)),
    decreases n,
{
    if n > 0 {
        lemma_scrub_fields_from(pat, f, (n - 1) as nat);
        let prev = scrub_fields(pat, JsonV::Object(f), (n - 1) as nat);
        let cur = scrub_fields(pat, JsonV::Object(f), n);
        assert forall|j: int| 0 <= j < cur.len() implies exists|k: int|
            0 <= k < n && !regex_match(pat, f[k].0) && #[trigger] cur[j] == (f[k].0, scrub_by(pat, f[k].1)) by {
            if j < prev.len() {
                assert(cur[j] == prev[j]);
                let k = choose|k: int| 0 <= k < n - 1 && !regex_match(pat, f[k].0) && prev[j] == (f[k].0, scrub_by(pat, f[k].1));
                assert(0 <= k < n);
            } else {
                assert(cur[j] == (f[n - 1].0, scrub_by(pat, f[n - 1].1)));
            }
        }
    }
}

/// Scrubbing leaves no object key matching the pattern anywhere inside the value.
pub proof fn lemma_scrub_by_clean(pat: Seq<char>, v: JsonV)
    ensures
        clean_by(pat, scrub_by(pat, v)),
    decreases v,
{
    match v {
        JsonV::Object(f) => {
            let g = scrub_fields(pat, v, f.len());
            lemma_scrub_fields_from(pat, f, f.len());
            assert forall|j: int| 0 <= j < g.len() implies !regex_match(pat, #[trigger] g[j].0) && clean_by(pat, g[j].1) by {
                let k = choose|k: int| 0 <= k < f.len() && !regex_match(pat, f[k].0) && g[j] == (f[k].0, scrub_by(pat, f[k].1));
                assert(decreases_to!(v => f[k].1));
                lemma_scrub_by_clean(pat, f[k].1);
            }
            lemma_clean_fields_all(pat, g, g.len());
        },
        JsonV::Array(a) => {
            let b = scrub_by(pat, v)->Array_0;
            assert forall|j: int| 0 <= j < b.len() implies clean_by(pat, #[trigger] b[j]) by {
                assert(decreases_to!(v => a[j]));
                lemma_scrub_by_clean(pat, a[j]);
            }
            lemma_clean_items_all(pat, b, b.len());
        },
        _ => {},
    }
}

/// A value with no matching key is left as it is by scrubbing.
pub proof fn lemma_scrub_by_clean_fixed(pat: Seq<char>, v: JsonV)
    requires
        clean_by(pat, v),
    ensures
        scrub_by(pat, v) == v,
    decreases v,
{
    match v {
        JsonV::Object(f) => {
            lemma_clean_fields_all(pat, f, f.len());
            lemma_scrub_fields_prefix(pat, v, f, f.len());
            assert(f.take(f.len() as int) =~= f);
        },
        JsonV::Array(a) => {
            lemma_clean_items_all(pat, a, a.len());
            let b = scrub_by(pat, v)->Array_0;
            assert forall|j: int| 0 <= j < a.len() implies #[trigger] b[j] == a[j] by {
                assert(decreases_to!(v => a[j]));
                lemma_scrub_by_clean_fixed(pat, a[j]);
            }
            assert(b =~= a);
        },
        _ => {},
    }
}

proof fn lemma_scrub_fields_prefix(pat: Seq<char>, v: JsonV, f: Seq<(Seq<char>, JsonV)>, n: nat)
    requires
        v == JsonV::Object(f),
        n <= f.len(),
        forall|j: int| 0 <= j < f.len() ==> !regex_match(pat, #[trigger] f[j].0) && clean_by(pat, f[j].1),
    ensures
        scrub_fields(pat, v, n) == f.take(n as int),
    decreases v, n,
{
    if n > 0 {
        lemma_scrub_fields_prefix(pat, v, f, (n - 1) as nat);
        assert(decreases_to!(v => f[n - 1].1));
        let last = f[n - 1].0;
        assert(!regex_match(pat, last) && clean_by(pat, f[n - 1].1));
        lemma_scrub_by_clean_fixed(pat, f[n - 1].1);
        assert(f.take(n as int) =~= f.take(n - 1).push(f[n - 1]));
    } else {
        assert(f.take(0) =~= Seq::<(Seq<char>, JsonV)>::empty());
    }
}

/// What an export scrubs away stays away: after `scrub`, no object key at any depth looks
/// like a credential (token, key, password, secret, authorization, credential, in any case).
pub proof fn law_scrub_leaves_no_secret_key(v: JsonV)
    ensures
        clean_by(SECRET_KEY_PATTERN@, scrub_spec(v)),
{
    lemma_scrub_by_clean(SECRET_KEY_PATTERN@, v);
}

/// Scrubbing twice is scrubbing once.
pub proof fn law_scrub_idempotent(v: JsonV)
    ensures
        scrub_spec(scrub_spec(v)) == scrub_spec(v),
{
    lemma_scrub_by_clean(SECRET_KEY_PATTERN@, v);
    lemma_scrub_by_clean_fixed(SECRET_KEY_PATTERN@, scrub_spec(v));
}

} // verus!

verus! {

/// `s` is the three characters `a`, `b`, `c`.
spec fn chars3(s: Seq<char>, a: char, b: char, c: char) -> bool {
    s.len() == 3 && s[0] == a && s[1] == b && s[2] == c
}

/// The CRS rule families and their classes, as fixed data: scanner and protocol families
/// (913, 920, 921) are A05 Security Misconfiguration via T1595 at medium confidence; 930
/// (local file inclusion) is A01 via T1190; 931, 941, 942, 944 (RFI, XSS, SQL injection,
/// Java) are A03 Injection via T1190; 932 (RCE) adds T1059 and T1068; 933 (PHP) adds
/// T1059; 934 (SSRF and the like) is A10; 943 (session fixation) is A07 via T1110 at
/// medium confidence. No other family is classified.
pub proof fn law_crs_families(gid: Seq<char>)
    ensures
        crs_class_spec("913"@) == Some(("A05"@, seq!["T1595"@], "medium"@)),
        crs_class_spec("920"@) == Some(("A05"@, seq!["T1595"@], "medium"@)),
        crs_class_spec("921"@) == Some(("A05"@, seq!["T1595"@], "medium"@)),
        crs_class_spec("930"@) == Some(("A01"@, seq!["T1190"@], "high"@)),
        crs_class_spec("931"@) == Some(("A03"@, seq!["T1190"@], "high"@)),
        crs_class_spec("941"@) == Some(("A03"@, seq!["T1190"@], "high"@)),
        crs_class_spec("942"@) == Some(("A03"@, seq!["T1190"@], "high"@)),
        crs_class_spec("944"@) == Some(("A03"@, seq!["T1190"@], "high"@)),
        crs_class_spec("932"@) == Some(("A03"@, seq!["T1190"@, "T1059"@, "T1068"@], "high"@)),
        crs_class_spec("933"@) == Some(("A03"@, seq!["T1190"@, "T1059"@], "high"@)),
        crs_class_spec("934"@) == Some(("A10"@, seq!["T1190"@], "high"@)),
        crs_class_spec("943"@) == Some(("A07"@, seq!["T1110"@], "medium"@)),
        crs_class_spec(gid) is Some ==> gid == "913"@ || gid == "920"@ || gid == "921"@ || gid == "930"@
            || gid == "931"@ || gid == "932"@ || gid == "933"@ || gid == "934"@ || gid == "941"@
            || gid == "942"@ || gid == "943"@ || gid == "944"@,
{
    reveal_strlit("913");
    reveal_strlit("920");
    reveal_strlit("921");
    reveal_strlit("930");
    reveal_strlit("931");
    reveal_strlit("932");
    reveal_strlit("933");
    reveal_strlit("934");
    reveal_strlit("941");
    reveal_strlit("942");
    reveal_strlit("943");
    reveal_strlit("944");
    assert(chars3("913"@, '9', '1', '3'));
    assert(chars3("920"@, '9', '2', '0'));
    assert(chars3("921"@, '9', '2', '1'));
    assert(chars3("930"@, '9', '3', '0'));
    assert(chars3("931"@, '9', '3', '1'));
    assert(chars3("932"@, '9', '3', '2'));
    assert(chars3("933"@, '9', '3', '3'));
    assert(chars3("934"@, '9', '3', '4'));
    assert(chars3("941"@, '9', '4', '1'));
    assert(chars3("942"@, '9', '4', '2'));
    assert(chars3("943"@, '9', '4', '3'));
    assert(chars3("944"@, '9', '4', '4'));
}

/// The answer for a name carrying a CRS rule id of family `gid`, where the alert names no
/// techniques and the name has no out-of-band marker: the family's class.
proof fn lemma_classify_crs(name: Seq<char>, alert: Option<JsonV>, gid: Seq<char>)
    requires
        trim(name).len() > 0,
        !noise(Some(trim(name))),
        regex_groups(CRS_ID_PATTERN@, trim(name)) matches Some(g) && g.len() > 1 && g[1] == Some(gid),
        crs_class_spec(gid) is Some,
        mitre_spec(alert).len() == 0,
        !regex_match(OOB_PATTERN@, trim(name)),
    ensures
        classify_spec(Some(name), alert) == hit_value(
            crs_class_spec(gid)->Some_0.0,
            crs_class_spec(gid)->Some_0.1,
            crs_class_spec(gid)->Some_0.2,
        ),
{
    let (c, a, f) = crs_class_spec(gid)->Some_0;
    reveal_strlit("none");
    reveal_strlit("A01");
    reveal_strlit("A03");
    reveal_strlit("A05");
    reveal_strlit("A07");
    reveal_strlit("A10");
    assert(c.len() != "none"@.len());
    assert(!field_eq(hit_value(c, a, f), "code"@, "none"@));
}

/// A name carrying a CRS rule id of the SQL-injection family 942 (with no techniques named
/// by its alert and no out-of-band marker) is classified A03 Injection, technique T1190,
/// high confidence.
pub proof fn law_classify_sqli_family(name: Seq<char>, alert: Option<JsonV>)
    requires
        trim(name).len() > 0,
        !noise(Some(trim(name))),
        regex_groups(CRS_ID_PATTERN@, trim(name)) matches Some(g) && g.len() > 1 && g[1] == Some("942"@),
        mitre_spec(alert).len() == 0,
        !regex_match(OOB_PATTERN@, trim(name)),
    ensures
        field_eq(classify_spec(Some(name), alert), "code"@, "A03"@),
        jget(classify_spec(Some(name), alert), "attack"@) == Some(str_array(seq!["T1190"@])),
        field_eq(classify_spec(Some(name), alert), "confidence"@, "high"@),
{
    law_crs_families("942"@);
    lemma_classify_crs(name, alert, "942"@);
    let one = seq!["T1190"@];
    assert(attack_ids()[0] == "T1190"@);
    assert(attack_ids().contains("T1190"@));
    assert(one.drop_last() =~= Seq::<Seq<char>>::empty());
    assert(known_once(Seq::<Seq<char>>::empty()) =~= Seq::<Seq<char>>::empty());
    assert(!Seq::<Seq<char>>::empty().contains("T1190"@));
    assert(one.last() == "T1190"@);
    assert(known_once(one) =~= Seq::<Seq<char>>::empty().push("T1190"@));
    assert(known_once(one) =~= one);
    reveal_strlit("code");
    reveal_strlit("id");
    reveal_strlit("name");
    reveal_strlit("url");
    reveal_strlit("attack");
    reveal_strlit("confidence");
    assert("id"@.len() != "attack"@.len() && "name"@.len() != "attack"@.len() && "url"@.len() != "attack"@.len()
        && "code"@.len() != "attack"@.len());
    assert("id"@.len() != "confidence"@.len() && "name"@.len() != "confidence"@.len() && "url"@.len()
        != "confidence"@.len() && "code"@.len() != "confidence"@.len() && "attack"@.len() != "confidence"@.len());
    reveal_with_fuel(crate::json::vget, 7);
    let h = hit_value("A03"@, one, "high"@);
    assert(h == classify_spec(Some(name), alert));
    assert(jget(h, "attack"@) == Some(str_array(known_once(one))));
    assert(jget(h, "confidence"@) == Some(js("high"@)));
}

} // verus!

verus! {

/// Field `k2` of `set_field(b, k, v)`: `v` where `k2 == k` and `b` is an object, else `b`'s.
proof fn lemma_field_after_set(b: JsonV, k: Seq<char>, v: JsonV, k2: Seq<char>)
    ensures
        b is Object ==> jget(set_field(b, k, v), k2) == if k2 == k { Some(v) } else { jget(b, k2) },
        !(b is Object) ==> set_field(b, k, v) == b,
{
    if let JsonV::Object(f) = b {
        crate::json::lemma_set_entry_get(f, k, v, k2);
    }
}

/// Out-of-band detections are never of high confidence: for a name with an out-of-band
/// marker, the classification either names no OWASP category or has a confidence other
/// than `high`.
pub proof fn law_classify_oob_not_high(name: Option<Seq<char>>, alert: Option<JsonV>)
    requires
        regex_match(OOB_PATTERN@, trimmed_name(name)),
    ensures
        field_eq(classify_spec(name, alert), "code"@, "none"@) || !field_eq(
            classify_spec(name, alert),
            "confidence"@,
            "high"@,
        ),
{
    reveal_strlit("none");
    reveal_strlit("code");
    reveal_strlit("id");
    reveal_strlit("name");
    reveal_strlit("url");
    reveal_strlit("attack");
    reveal_strlit("confidence");
    reveal_strlit("medium");
    reveal_strlit("high");
    assert("medium"@.len() != "high"@.len());
    assert("attack"@.len() != "confidence"@.len());
    assert("none"@[0] != "high"@[0]);
    reveal_with_fuel(crate::json::vget, 7);
    let r = classify_spec(name, alert);
    let text = trimmed_name(name);
    if !(text.len() == 0 || noise(Some(text))) {
        let base = match crs_hit(text) {
            Some((c, a, f)) => hit_value(c, a, f),
            None => none_hit(),
        };
        let named = if field_eq(base, "code"@, "none"@) {
            match first_rule(text, 0) {
                Some(i) => hit_value(class_rules()[i].1, class_rules()[i].2, class_rules()[i].3),
                None => base,
            }
        } else {
            base
        };
        let hub = mitre_spec(alert);
        let with_hub = if hub.len() > 0 {
            let r1 = set_field(named, "attack"@, str_array(hub));
            if field_eq(r1, "confidence"@, "none"@) {
                set_field(r1, "confidence"@, js("medium"@))
            } else {
                r1
            }
        } else {
            named
        };
        if !field_eq(with_hub, "code"@, "none"@) {
            let a = if field_eq(with_hub, "confidence"@, "high"@) {
                set_field(with_hub, "confidence"@, js("medium"@))
            } else {
                with_hub
            };
            lemma_field_after_set(with_hub, "confidence"@, js("medium"@), "confidence"@);
            assert(!field_eq(a, "confidence"@, "high"@));
            lemma_field_after_set(a, "attack"@, str_array(seq!["T1595"@]), "confidence"@);
        }
    } else {
        assert(r == none_hit());
    }
}

} // verus!
