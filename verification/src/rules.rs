//! The read-only rules view of the engine: profile names and hooks, the AppSec listener and
//! the CrowdSec configs that the acquisition enables, the operator parser's networks, and
//! the console's fixed policy. Files are read by the caller; this computes from their text.
use vstd::prelude::*;

use crate::correlate::{js, str_array, vviews};
use crate::findings::{sort_spec, sort_texts, distinct, strings_json, sviews};
use crate::json::{fview, Json, JsonV};
use crate::lapi::{cidrs_from, trim_quotes, CIDR_PATTERN};
use crate::pattern::{regex_all, regex_group1_all, re_find_all, re_group1_all};
use crate::text::{before_first, chars_of, string_of, take_at_most, take_chars, trim, trim_chars};

verus! {

/// A profile's `name:` line; the group is the name up to a comment.
pub const NAME_PATTERN: &'static str = "(?m)^name:\\s*([^\\n#]+)";

/// A profile's `on_success:` line.
pub const ON_SUCCESS_PATTERN: &'static str = "(?m)^on_success:\\s*(.+)$";

/// A profile's `filters:` line.
pub const FILTERS_PATTERN: &'static str = "(?m)^filters:\\s*(.+)$";

/// The acquisition's `listen_addr:` line.
pub const LISTEN_PATTERN: &'static str = "(?m)^listen_addr:\\s*(.+)$";

/// A CrowdSec config named in the acquisition.
pub const CONFIG_PATTERN: &'static str = "(crowdsecurity/[a-zA-Z0-9._-]+)";

/// The AppSec listener when the acquisition names none.
pub const DEFAULT_LISTEN: &'static str = "127.0.0.1:7422";

/// The captured texts, trimmed, skipping matches without the group; with `unquote`, also
/// without quotes at either end.
pub open spec fn captured(gs: Seq<Option<Seq<char>>>, unquote: bool) -> Seq<Seq<char>>
    decreases gs.len(),
{
    if gs.len() == 0 {
        Seq::empty()
    } else {
        let prev = captured(gs.drop_last(), unquote);
        match gs.last() {
            Some(t) => prev.push(if unquote { trim_quotes(trim(t)) } else { trim(t) }),
            None => prev,
        }
    }
}

/// The profile names in `text`.
pub open spec fn yaml_names(text: Seq<char>) -> Seq<Seq<char>> {
    captured(regex_group1_all(NAME_PATTERN@, text), false)
}

/// The values of the `key:` lines matched by `pattern` in `text`, unquoted.
pub open spec fn yaml_kv(text: Seq<char>, pattern: Seq<char>) -> Seq<Seq<char>> {
    captured(regex_group1_all(pattern, text), true)
}

/// At most the first `n` items of `s`.
pub open spec fn first_n(s: Seq<Seq<char>>, n: nat) -> Seq<Seq<char>> {
    if s.len() <= n {
        s
    } else {
        s.take(n as int)
    }
}

/// `l` without one trailing carriage return.
pub open spec fn strip_cr(l: Seq<char>) -> Seq<char> {
    if l.len() > 0 && l.last() == '\r' {
        l.drop_last()
    } else {
        l
    }
}

/// Reading `s` character by character: the lines ended by `\n` so far (each without one
/// trailing `\r`), and the line being read.
pub open spec fn lines_scan(s: Seq<char>) -> (Seq<Seq<char>>, Seq<char>)
    decreases s.len(),
{
    if s.len() == 0 {
        (Seq::empty(), Seq::empty())
    } else {
        let (done, cur) = lines_scan(s.drop_last());
        if s.last() == '\n' {
            (done.push(strip_cr(cur)), Seq::empty())
        } else {
            (done, cur.push(s.last()))
        }
    }
}

/// The lines of `s` as `str::lines` gives them: split at `\n` (one `\r` before it dropped),
/// with no empty line after a final `\n`.
pub open spec fn std_lines(s: Seq<char>) -> Seq<Seq<char>> {
    let (done, cur) = lines_scan(s);
    if cur.len() > 0 {
        done.push(cur)
    } else {
        done
    }
}

/// The lines, each up to its first `#`, joined by `\n`.
pub open spec fn uncommented(ls: Seq<Seq<char>>) -> Seq<char>
    decreases ls.len(),
{
    if ls.len() == 0 {
        Seq::empty()
    } else if ls.len() == 1 {
        before_first(ls[0], '#')
    } else {
        uncommented(ls.drop_last()) + seq!['\n'] + before_first(ls.last(), '#')
    }
}

/// The CrowdSec configs the acquisition names outside comments, each once, in ascending
/// order.
pub open spec fn acquis_configs(acquis: Seq<char>) -> Seq<Seq<char>> {
    sort_spec(distinct(regex_all(CONFIG_PATTERN@, uncommented(std_lines(acquis)))))
}

/// The AppSec listener of the acquisition: its first `listen_addr`, else the default.
pub open spec fn listen_of(acquis: Seq<char>) -> Seq<char> {
    let l = yaml_kv(acquis, LISTEN_PATTERN@);
    if l.len() > 0 {
        l[0]
    } else {
        DEFAULT_LISTEN@
    }
}

/// The mutations the console offers.
pub open spec fn mutation_names() -> Seq<Seq<char>> {
    seq![
        "unban-ip"@, "ban-ip"@, "allowlist-add"@, "allowlist-remove"@, "policy-create"@,
        "policy-update"@, "policy-delete"@, "site-filter-allow_match"@, "site-filter-skip_rule"@,
        "site-filter-bypass_host"@,
    ]
}

/// The console's fixed policy: no in-band CRS, fail-closed kept, no large-upload inspection.
pub open spec fn policy_spec() -> JsonV {
    JsonV::Object(
        seq![
            ("crs_inband"@, JsonV::Bool(false)),
            ("fail_closed"@, JsonV::Bool(true)),
            ("include_large_uploads"@, JsonV::Bool(false)),
            ("mutations"@, str_array(mutation_names())),
            ("note"@, js(
                "The UI never enables CRS in-band, INCLUDE_LARGE_UPLOADS or fail-closed changes. Per-host filters use AppSec hooks."@,
            )),
        ],
    )
}

/// The rules view of the profiles, the AppSec acquisition and the operator parser.
pub open spec fn rules_spec(profiles: Seq<char>, acquis: Seq<char>, operators: Seq<char>) -> JsonV {
    JsonV::Object(
        seq![
            ("profiles"@, JsonV::Object(seq![
                ("names"@, str_array(yaml_names(profiles))),
                ("on_success"@, str_array(first_n(yaml_kv(profiles, ON_SUCCESS_PATTERN@), 12))),
                ("filters"@, str_array(first_n(yaml_kv(profiles, FILTERS_PATTERN@), 12))),
            ])),
            ("appsec"@, JsonV::Object(seq![
                ("listen_addr"@, js(listen_of(acquis))),
                ("configs"@, str_array(acquis_configs(acquis))),
                ("raw"@, js(take_at_most(acquis, 1600))),
            ])),
            ("operators_parser"@, JsonV::Object(seq![
                ("present"@, JsonV::Bool(trim(operators).len() > 0)),
                ("cidrs"@, str_array(cidrs_from(regex_all(CIDR_PATTERN@, operators)))),
            ])),
            ("policy"@, policy_spec()),
        ],
    )
}

/// The captured texts of a pattern in a text.
fn captured_exec(pattern: &str, text: &str, unquote: bool) -> (r: Vec<String>)
    ensures
        sviews(r@) == captured(regex_group1_all(pattern@, text@), unquote),
{
    let gs = re_group1_all(pattern, text);
    let ghost gv = regex_group1_all(pattern@, text@);
    let mut out: Vec<String> = Vec::new();
    let mut i: usize = 0;
    assert(gv.take(0) =~= Seq::<Option<Seq<char>>>::empty());
    while i < gs.len()
        invariant
            i <= gs@.len() == gv.len(),
            gv == regex_group1_all(pattern@, text@),
            forall|k: int|
                0 <= k < gs@.len() ==> match #[trigger] gs@[k] {
                    Some(t) => gv[k] == Some(t@),
                    None => gv[k] is None,
                },
            sviews(out@) == captured(gv.take(i as int), unquote),
        decreases gs.len() - i,
    {
        assert(gv.take(i + 1).drop_last() =~= gv.take(i as int));
        assert(gv.take(i + 1).last() == gv[i as int]);
        match &gs[i] {
            Some(t) => {
                let tt = trim_chars(&chars_of(t.as_str()));
                let v = if unquote {
                    crate::lapi::trim_quotes_exec(&tt)
                } else {
                    tt
                };
                let ghost o = out@;
                out.push(string_of(&v));
                assert(sviews(out@) =~= sviews(o).push(v@));
            },
            None => {},
        }
        i = i + 1;
    }
    assert(gv.take(gs.len() as int) =~= gv);
    out
}

/// At most the first `n` strings.
fn first_n_exec(v: Vec<String>, n: usize) -> (r: Vec<String>)
    ensures
        sviews(r@) == first_n(sviews(v@), n as nat),
{
    let mut out: Vec<String> = Vec::new();
    let mut i: usize = 0;
    while i < v.len() && i < n
        invariant
            i <= v@.len(),
            i <= n,
            out@.len() == i,
            forall|k: int| 0 <= k < i ==> #[trigger] out@[k]@ == v@[k]@,
        decreases v.len() - i,
    {
        out.push(v[i].clone());
        i = i + 1;
    }
    if v.len() <= n {
        assert(sviews(out@) =~= sviews(v@));
    } else {
        assert(sviews(out@) =~= sviews(v@).take(n as int));
    }
    out
}

/// The lines of `s` (`str::lines`).
pub fn std_lines_exec(s: &Vec<char>) -> (r: Vec<Vec<char>>)
    ensures
        vviews(r@) == std_lines(s@),
{
    let mut done: Vec<Vec<char>> = Vec::new();
    let mut cur: Vec<char> = Vec::new();
    let mut i: usize = 0;
    assert(s@.take(0) =~= Seq::<char>::empty());
    assert(vviews(done@) =~= Seq::<Seq<char>>::empty());
    while i < s.len()
        invariant
            i <= s@.len(),
            (vviews(done@), cur@) == lines_scan(s@.take(i as int)),
        decreases s.len() - i,
    {
        assert(s@.take(i + 1).drop_last() =~= s@.take(i as int));
        assert(s@.take(i + 1).last() == s@[i as int]);
        if s[i] == '\n' {
            let l = if cur.len() > 0 && cur[cur.len() - 1] == '\r' {
                crate::text::slice_chars(&cur, 0, cur.len() - 1)
            } else {
                cur.clone()
            };
            assert(l@ =~= strip_cr(cur@));
            let ghost d = done@;
            done.push(l);
            assert(vviews(done@) =~= vviews(d).push(strip_cr(cur@)));
            cur = Vec::new();
            assert(cur@ =~= Seq::<char>::empty());
        } else {
            cur.push(s[i]);
        }
        i = i + 1;
    }
    assert(s@.take(s.len() as int) =~= s@);
    if cur.len() > 0 {
        let ghost d = done@;
        done.push(cur);
        assert(vviews(done@) =~= vviews(d).push(done@.last()@));
    }
    done
}

/// The lines up to their comments, joined by `\n`.
fn uncommented_exec(ls: &Vec<Vec<char>>) -> (r: Vec<char>)
    ensures
        r@ == uncommented(vviews(ls@)),
{
    let ghost lv = vviews(ls@);
    let mut out: Vec<char> = Vec::new();
    let mut i: usize = 0;
    assert(lv.take(0) =~= Seq::<Seq<char>>::empty());
    while i < ls.len()
        invariant
            i <= ls@.len() == lv.len(),
            lv == vviews(ls@),
            out@ == uncommented(lv.take(i as int)),
        decreases ls.len() - i,
    {
        assert(lv.take(i + 1).drop_last() =~= lv.take(i as int));
        assert(lv.take(i + 1).last() == ls@[i as int]@);
        if i > 0 {
            out.push('\n');
        }
        let b = crate::text::before_first_exec(&ls[i], '#');
        crate::text::append_chars(&mut out, &b);
        proof {
            if i == 0 {
                assert(lv.take(1) =~= seq![lv[0]]);
            }
        }
        i = i + 1;
    }
    assert(lv.take(ls.len() as int) =~= lv);
    out
}

/// The CrowdSec configs the acquisition names outside comments.
fn acquis_configs_exec(acquis: &str) -> (r: Vec<Vec<char>>)
    ensures
        vviews(r@) == acquis_configs(acquis@),
{
    let text = uncommented_exec(&std_lines_exec(&chars_of(acquis)));
    let ms = re_find_all(CONFIG_PATTERN, string_of(&text).as_str());
    let mut cs: Vec<Vec<char>> = Vec::new();
    let mut i: usize = 0;
    while i < ms.len()
        invariant
            i <= ms@.len(),
            cs@.len() == i,
            forall|k: int| 0 <= k < i ==> #[trigger] cs@[k]@ == ms@[k]@,
        decreases ms.len() - i,
    {
        cs.push(chars_of(ms[i].as_str()));
        i = i + 1;
    }
    assert(vviews(cs@) =~= regex_all(CONFIG_PATTERN@, text@));
    sort_texts(crate::control::distinct_texts(&cs))
}

/// A JSON array of character strings.
fn char_strings_json(v: &Vec<Vec<char>>) -> (r: Json)
    ensures
        r@ == str_array(vviews(v@)),
{
    crate::correlate::str_array_pub(v)
}

/// The console's fixed policy.
fn policy_exec() -> (r: Json)
    ensures
        r@ == policy_spec(),
{
    let names: [&str; 10] = [
        "unban-ip", "ban-ip", "allowlist-add", "allowlist-remove", "policy-create", "policy-update",
        "policy-delete", "site-filter-allow_match", "site-filter-skip_rule", "site-filter-bypass_host",
    ];
    let cs = crate::correlate::char_vecs_pub(&names);
    assert(names@.map_values(|t: &str| t@) =~= mutation_names());
    let mut f: Vec<(String, Json)> = Vec::new();
    f.push((String::from_str("crs_inband"), Json::Bool(false)));
    f.push((String::from_str("fail_closed"), Json::Bool(true)));
    f.push((String::from_str("include_large_uploads"), Json::Bool(false)));
    f.push((String::from_str("mutations"), char_strings_json(&cs)));
    f.push((
        String::from_str("note"),
        Json::Str(String::from_str(
            "The UI never enables CRS in-band, INCLUDE_LARGE_UPLOADS or fail-closed changes. Per-host filters use AppSec hooks.",
        )),
    ));
    assert(fview(f@) =~= policy_spec()->Object_0);
    crate::findings::object_of(f)
}

/// The rules view: profile names and their first 12 `on_success` and `filters` values; the
/// AppSec listener (`127.0.0.1:7422` when none is named), the distinct CrowdSec configs
/// named outside comments in ascending order, and the first 1600 characters of the
/// acquisition; whether the operator parser has content and the networks it names; and the
/// console's fixed policy. The hub inventory, read from disk, is not part of it.
pub fn rules_document(profiles: &str, acquis: &str, operators: &str) -> (r: Json)
    ensures
        r@ == rules_spec(profiles@, acquis@, operators@),
{
    let names = captured_exec(NAME_PATTERN, profiles, false);
    let on_success = first_n_exec(captured_exec(ON_SUCCESS_PATTERN, profiles, true), 12);
    let filters = first_n_exec(captured_exec(FILTERS_PATTERN, profiles, true), 12);
    let mut pf: Vec<(String, Json)> = Vec::new();
    pf.push((String::from_str("names"), strings_json(&names)));
    pf.push((String::from_str("on_success"), strings_json(&on_success)));
    pf.push((String::from_str("filters"), strings_json(&filters)));
    let listens = captured_exec(LISTEN_PATTERN, acquis, true);
    let listen = if listens.len() > 0 {
        listens[0].clone()
    } else {
        String::from_str(DEFAULT_LISTEN)
    };
    let configs = acquis_configs_exec(acquis);
    let raw = take_chars(&chars_of(acquis), 1600);
    let mut ap: Vec<(String, Json)> = Vec::new();
    ap.push((String::from_str("listen_addr"), Json::Str(listen)));
    ap.push((String::from_str("configs"), char_strings_json(&configs)));
    ap.push((String::from_str("raw"), Json::Str(string_of(&raw))));
    let present = trim_chars(&chars_of(operators)).len() > 0;
    let cidrs = crate::lapi::extract_cidrs(operators);
    let mut op: Vec<(String, Json)> = Vec::new();
    op.push((String::from_str("present"), Json::Bool(present)));
    op.push((String::from_str("cidrs"), strings_json(&cidrs)));
    let ghost pv = fview(pf@);
    let ghost av = fview(ap@);
    let ghost ov = fview(op@);
    let mut top: Vec<(String, Json)> = Vec::new();
    top.push((String::from_str("profiles"), crate::findings::object_of(pf)));
    top.push((String::from_str("appsec"), crate::findings::object_of(ap)));
    top.push((String::from_str("operators_parser"), crate::findings::object_of(op)));
    top.push((String::from_str("policy"), policy_exec()));
    let ghost want = rules_spec(profiles@, acquis@, operators@)->Object_0;
    assert(pv =~= want[0].1->Object_0);
    assert(av =~= want[1].1->Object_0);
    assert(ov =~= want[2].1->Object_0);
    assert(fview(top@) =~= want);
    crate::findings::object_of(top)
}

/// An acquisition setting that turns on inspection of large uploads.
pub const LARGE_UPLOADS_PATTERN: &'static str = "(?i)INCLUDE_LARGE_UPLOADS\\s*[:=]\\s*(1|true|yes)";

/// What the engine's files say of its posture.
pub struct Posture {
    /// The profiles keep out-of-band AppSec log-only.
    pub oob_log_only: bool,
    /// The profiles define the in-band CRS profile.
    pub crs_inband_present: bool,
    /// The acquisition turns on large-upload inspection.
    pub include_large_uploads: bool,
}

/// The engine posture read from the profiles and the AppSec acquisition: out-of-band
/// log-only when the profiles mention `appsec_outofband_log_only`; in-band CRS present when
/// they mention `crs-inband` and hold `name: crs-inband`; large uploads inspected when the
/// acquisition sets `INCLUDE_LARGE_UPLOADS` to 1, true or yes.
pub fn engine_posture(profiles: &str, acquis: &str) -> (r: Posture)
    ensures
        r.oob_log_only == crate::text::contains(profiles@, "appsec_outofband_log_only"@),
        r.crs_inband_present == (crate::text::contains(profiles@, "crs-inband"@) && crate::text::contains(
            profiles@,
            "name: crs-inband"@,
        )),
        r.include_large_uploads == crate::pattern::regex_match(LARGE_UPLOADS_PATTERN@, acquis@),
{
    let p = chars_of(profiles);
    let oob = crate::text::contains_chars(&p, &chars_of("appsec_outofband_log_only"));
    let crs = crate::text::contains_chars(&p, &chars_of("crs-inband")) && crate::text::contains_chars(
        &p,
        &chars_of("name: crs-inband"),
    );
    let large = crate::pattern::re_is_match(LARGE_UPLOADS_PATTERN, acquis);
    Posture { oob_log_only: oob, crs_inband_present: crs, include_large_uploads: large }
}

} // verus!
