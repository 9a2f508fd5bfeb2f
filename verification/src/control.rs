//! Per-FQDN AppSec policy validation, composition and rendering.
use vstd::prelude::*;

use crate::catalog::{has_key, key_in, Catalog};
use crate::number::{int_error_message, int_error_text, parse_int, parse_int_spec, IntError};
use crate::pattern::{re_captures, re_is_match, regex_groups, regex_match};
use crate::fresh::{new_id, utc_now};
use crate::json::{
    lemma_set_entry_get, lemma_vget_first, lemma_object_fview, obj_set, set_field, clone_all, field_is, clone_json, lemma_object_view, bool_or, get, get_bool_or, get_str, get_str_or, get_str_or_empty, is_object, jget, jstr,
    jviews, str_or, str_or_empty, Json, JsonV, fview, get_i64, ji64, lemma_array_view, set_entry,
};
use crate::text::{
    find_char, find_char_exec, has_char, slice_chars, append_chars, append_str, strip_char, strip_char_exec, take_at_most, take_chars,
    chars_of, concat_chars, contains, contains_chars, eq_chars, first_hit, join_space, lower,
    lower_chars, message, string_of, trim, trim_chars, views, join_with_space, first_hit_exec,
};

verus! {

/// Hostnames a policy may name.
pub const HOST_PATTERN: &'static str = "^[a-z0-9][a-z0-9.-]{0,80}$";

/// Path prefixes a policy may name.
pub const PATH_PATTERN: &'static str = "^/[A-Za-z0-9._~/=-]{0,127}$";

/// AppSec rules a policy may skip.
pub const RULE_PATTERN: &'static str = "^(crowdsecurity|peritumct)/[A-Za-z0-9._-]+$";

/// Policy names.
pub const NAME_PATTERN: &'static str = "^[a-z0-9][a-z0-9._-]{0,47}$";

/// Ban durations (`4h`, `30m`).
pub const DURATION_PATTERN: &'static str = "^(\\d+)([hm])$";

/// Tokens that no operator input or rendered policy may contain.
pub open spec fn forbidden_tokens() -> Seq<Seq<char>> {
    seq![
        "disablebodyinspection"@,
        "include_large_uploads"@,
        "crs-inband"@,
        "droprequest"@,
        "default_remediation"@,
        "nomad job run"@,
        "fail_closed"@,
    ]
}

/// The forbidden tokens, in order.
pub fn forbidden_list() -> (v: Vec<&'static str>)
    ensures
        views(v@) == forbidden_tokens(),
{
    let v = vec![
        "disablebodyinspection",
        "include_large_uploads",
        "crs-inband",
        "droprequest",
        "default_remediation",
        "nomad job run",
        "fail_closed",
    ];
    assert(views(v@) =~= forbidden_tokens());
    v
}

/// What `reject_forbidden` answers for `parts`.
pub open spec fn forbidden_verdict(parts: Seq<Seq<char>>) -> Result<(), Seq<char>> {
    match first_hit(lower(join_space(parts)), forbidden_tokens()) {
        Some(t) => Err("forbidden operation: "@ + t),
        None => Ok(()),
    }
}

/// Refuses inputs that mention a forbidden engine setting (case-insensitively).
pub fn reject_forbidden(parts: &[&str]) -> (r: Result<(), String>)
    ensures
        match forbidden_verdict(views(parts@)) {
            Ok(()) => r is Ok,
            Err(m) => r matches Err(e) && e@ == m,
        },
{
    let joined = join_with_space(parts);
    let blob = lower_chars(&joined);
    let toks = forbidden_list();
    match first_hit_exec(&blob, toks.as_slice()) {
        Some(t) => {
            let tc = chars_of(t);
            Err(message("forbidden operation: ", &tc))
        },
        None => Ok(()),
    }
}

/// `reject_forbidden` on a single part.
pub fn reject_one(part: &Vec<char>) -> (r: Result<(), String>)
    ensures
        match forbidden_verdict(seq![part@]) {
            Ok(()) => r is Ok,
            Err(m) => r matches Err(e) && e@ == m,
        },
{
    let s = string_of(part);
    let parts: [&str; 1] = [s.as_str()];
    assert(views(parts@) =~= seq![part@]);
    reject_forbidden(&parts)
}

/// What `validate_host` answers for `host` against `catalog`.
pub open spec fn host_verdict(host: Seq<char>, catalog: Catalog) -> Result<Seq<char>, Seq<char>> {
    let h = lower(trim(host));
    if has_key(catalog.out_of_scope@, h) {
        Err("host out of WAF scope: "@ + h)
    } else if !has_key(catalog.sites@, h) {
        Err("host not in catalog"@)
    } else if !regex_match(HOST_PATTERN@, h) {
        Err("invalid host"@)
    } else {
        Ok(h)
    }
}

/// Accepts a policy host: in the catalog, not out of scope, well formed; answers it trimmed
/// and lowercased.
pub fn validate_host(host: &str, catalog: &Catalog) -> (r: Result<String, String>)
    ensures
        match host_verdict(host@, *catalog) {
            Ok(h) => r matches Ok(s) && s@ == h,
            Err(m) => r matches Err(e) && e@ == m,
        },
{
    let raw = chars_of(host);
    let t = trim_chars(&raw);
    let h = lower_chars(&t);
    if key_in(&catalog.out_of_scope, &h) {
        return Err(message("host out of WAF scope: ", &h));
    }
    if !key_in(&catalog.sites, &h) {
        return Err(String::from_str("host not in catalog"));
    }
    let hs = string_of(&h);
    if !re_is_match(HOST_PATTERN, hs.as_str()) {
        return Err(String::from_str("invalid host"));
    }
    Ok(hs)
}

/// What `validate_path` answers for `path`.
pub open spec fn path_verdict(path: Seq<char>) -> Result<Seq<char>, Seq<char>> {
    let p = trim(path);
    if !regex_match(PATH_PATTERN@, p) || p == "/"@ {
        Err("invalid path_prefix (must start with / and must not be only /)"@)
    } else if contains(p, "//"@) || contains(p, ".."@) {
        Err("invalid path_prefix"@)
    } else {
        match forbidden_verdict(seq![p]) {
            Err(m) => Err(m),
            Ok(()) => Ok(p),
        }
    }
}

/// Accepts a path prefix: well formed, not `/`, no `//` or `..`, nothing forbidden; answers
/// it trimmed.
pub fn validate_path(path: &str) -> (r: Result<String, String>)
    ensures
        match path_verdict(path@) {
            Ok(p) => r matches Ok(s) && s@ == p,
            Err(m) => r matches Err(e) && e@ == m,
        },
{
    let raw = chars_of(path);
    let p = trim_chars(&raw);
    let ps = string_of(&p);
    let slash = chars_of("/");
    if !re_is_match(PATH_PATTERN, ps.as_str()) || eq_chars(&p, &slash) {
        return Err(
            String::from_str("invalid path_prefix (must start with / and must not be only /)"),
        );
    }
    let dslash = chars_of("//");
    let ddot = chars_of("..");
    if contains_chars(&p, &dslash) || contains_chars(&p, &ddot) {
        return Err(String::from_str("invalid path_prefix"));
    }
    reject_one(&p)?;
    Ok(ps)
}

/// What `validate_rule` answers for `name`.
pub open spec fn rule_verdict(name: Seq<char>) -> Result<Seq<char>, Seq<char>> {
    let n = trim(name);
    if !regex_match(RULE_PATTERN@, n) {
        Err("invalid AppSec rule"@)
    } else {
        match forbidden_verdict(seq![n]) {
            Err(m) => Err(m),
            Ok(()) => Ok(n),
        }
    }
}

/// Accepts the name of a CrowdSec / PeritumCT AppSec rule; answers it trimmed.
pub fn validate_rule(name: &str) -> (r: Result<String, String>)
    ensures
        match rule_verdict(name@) {
            Ok(n) => r matches Ok(s) && s@ == n,
            Err(m) => r matches Err(e) && e@ == m,
        },
{
    let raw = chars_of(name);
    let n = trim_chars(&raw);
    let ns = string_of(&n);
    if !re_is_match(RULE_PATTERN, ns.as_str()) {
        return Err(String::from_str("invalid AppSec rule"));
    }
    reject_one(&n)?;
    Ok(ns)
}

/// What `validate_name` answers for `name`.
pub open spec fn name_verdict(name: Seq<char>) -> Result<Seq<char>, Seq<char>> {
    let n = lower(trim(name));
    if n.len() == 0 {
        Ok(n)
    } else if !regex_match(NAME_PATTERN@, n) {
        Err("invalid policy name (a-z, 0-9, ._-; max 48)"@)
    } else {
        match forbidden_verdict(seq![n]) {
            Err(m) => Err(m),
            Ok(()) => Ok(n),
        }
    }
}

/// Accepts an optional policy name (empty stays empty); answers it trimmed and lowercased.
pub fn validate_name(name: &str) -> (r: Result<String, String>)
    ensures
        match name_verdict(name@) {
            Ok(n) => r matches Ok(s) && s@ == n,
            Err(m) => r matches Err(e) && e@ == m,
        },
{
    let raw = chars_of(name);
    let t = trim_chars(&raw);
    let n = lower_chars(&t);
    let ns = string_of(&n);
    if n.len() == 0 {
        return Ok(ns);
    }
    if !re_is_match(NAME_PATTERN, ns.as_str()) {
        return Err(String::from_str("invalid policy name (a-z, 0-9, ._-; max 48)"));
    }
    reject_one(&n)?;
    Ok(ns)
}

/// Largest accepted duration, in the unit given: 168 hours, or 10080 minutes.
pub open spec fn duration_cap(unit: Seq<char>) -> int {
    if unit == "m"@ { 10080 } else { 168 }
}

/// What `validate_duration` answers for `value`: the captured digits must read as an `i64`
/// (`amount`), and `amount` hours (or `amount / 60` hours for `m`) must lie in `(0, 168]`.
pub open spec fn duration_verdict(value: Seq<char>) -> Result<(int, Seq<char>), Seq<char>> {
    match regex_groups(DURATION_PATTERN@, trim(value)) {
        Some(g) if g.len() == 3 && g[1] is Some && g[2] is Some => {
            let digits = g[1]->Some_0;
            let unit = g[2]->Some_0;
            match parse_int_spec(digits, true, i64::MIN as int, i64::MAX as int) {
                Err(e) => Err(int_error_text(e)),
                Ok(amount) => if amount <= 0 || amount > duration_cap(unit) {
                    Err("maximum duration is 168h"@)
                } else {
                    Ok((amount, unit))
                },
            }
        },
        _ => Err("invalid duration (e.g. 4h, 30m)"@),
    }
}

/// Decimal text of a non-negative integer.
pub open spec fn decimal(n: nat) -> Seq<char>
    decreases n,
{
    if n < 10 {
        seq![(n + '0' as nat) as char]
    } else {
        decimal(n / 10) + seq![((n % 10) + '0' as nat) as char]
    }
}

/// Decimal text of an integer (`i64`'s `Display`).
pub open spec fn int_text(n: int) -> Seq<char> {
    if n < 0 { seq!['-'] + decimal((-n) as nat) } else { decimal(n as nat) }
}

/// Formats a non-negative integer in decimal.
pub fn decimal_exec(n: u64) -> (r: Vec<char>)
    ensures
        r@ == decimal(n as nat),
    decreases n,
{
    if n < 10 {
        let c = char_of_digit(n);
        vec![c]
    } else {
        let mut hi = decimal_exec(n / 10);
        let c = char_of_digit(n % 10);
        hi.push(c);
        hi
    }
}

/// The ASCII digit for `d < 10`.
pub fn char_of_digit(d: u64) -> (c: char)
    requires
        d < 10,
    ensures
        c == (d + '0' as nat) as char,
{
    if d == 0 { '0' } else if d == 1 { '1' } else if d == 2 { '2' } else if d == 3 { '3' }
    else if d == 4 { '4' } else if d == 5 { '5' } else if d == 6 { '6' } else if d == 7 { '7' }
    else if d == 8 { '8' } else { '9' }
}

/// Formats an integer in decimal (`i64`'s `Display`).
pub fn int_text_exec(n: i64) -> (r: Vec<char>)
    ensures
        r@ == int_text(n as int),
{
    if n < 0 {
        let m: u64 = if n == i64::MIN { 9223372036854775808u64 } else { (-n) as u64 };
        let d = decimal_exec(m);
        let minus: Vec<char> = vec!['-'];
        concat_chars(&minus, &d)
    } else {
        decimal_exec(n as u64)
    }
}

/// Accepts a ban duration such as `4h` or `30m` of at most 168 hours; answers it as the
/// amount in decimal followed by the unit.
pub fn validate_duration(value: &str) -> (r: Result<String, String>)
    ensures
        match duration_verdict(value@) {
            Ok((amount, unit)) => r matches Ok(s) && s@ == int_text(amount) + unit,
            Err(m) => r matches Err(e) && e@ == m,
        },
{
    let raw = chars_of(value);
    let t = trim_chars(&raw);
    let ts = string_of(&t);
    let caps = re_captures(DURATION_PATTERN, ts.as_str());
    let groups = match caps {
        Some(g) => g,
        None => return Err(String::from_str("invalid duration (e.g. 4h, 30m)")),
    };
    if groups.len() != 3 {
        return Err(String::from_str("invalid duration (e.g. 4h, 30m)"));
    }
    let (digits, unit) = match (&groups[1], &groups[2]) {
        (Some(d), Some(u)) => (d, u),
        _ => return Err(String::from_str("invalid duration (e.g. 4h, 30m)")),
    };
    proof {
        let g = regex_groups(DURATION_PATTERN@, trim(value@))->Some_0;
        assert(groups@[1] matches Some(x) && g[1] == Some(x@));
        assert(groups@[2] matches Some(x) && g[2] == Some(x@));
    }
    let dc = chars_of(digits.as_str());
    let uc = chars_of(unit.as_str());
    let amount = match parse_int(&dc, true, i64::MIN, i64::MAX) {
        Ok(a) => a,
        Err(e) => return Err(int_error_message(e)),
    };
    let m = chars_of("m");
    let cap: i64 = if eq_chars(&uc, &m) { 10080 } else { 168 };
    if amount <= 0 || amount > cap {
        return Err(String::from_str("maximum duration is 168h"));
    }
    let at = int_text_exec(amount);
    let all = concat_chars(&at, &uc);
    Ok(string_of(&all))
}

} // verus!

verus! {

/// What `validate_cidr` answers for `value`: the trimmed text, with `/32` appended where it
/// has no `/`, must read as an IPv4 network of prefix 16 or longer.
pub open spec fn cidr_verdict(value: Seq<char>) -> Result<Seq<char>, Seq<char>> {
    let t = trim(value);
    let raw = if crate::text::has_char(t, '/') { t } else { t + "/32"@ };
    match crate::netaddr::net_parse(raw) {
        None => Err("invalid CIDR"@),
        Some((v6, prefix, text)) => if v6 {
            Err("IPv4 only"@)
        } else if prefix < 16 {
            Err("prefix too broad (minimum /16)"@)
        } else {
            Ok(text)
        },
    }
}

/// Accepts an IPv4 address or network for the operator allowlist (a bare address becomes
/// `/32`); answers the network's canonical text.
pub fn validate_cidr(value: &str) -> (r: Result<String, String>)
    ensures
        match cidr_verdict(value@) {
            Ok(n) => r matches Ok(s) && s@ == n,
            Err(m) => r matches Err(e) && e@ == m,
        },
        r matches Ok(s) ==> cidr_verdict(s@) == Ok::<Seq<char>, Seq<char>>(s@),
{
    let raw = chars_of(value);
    let t = trim_chars(&raw);
    let full = if crate::text::has_char_exec(&t, '/') {
        t
    } else {
        let suffix = chars_of("/32");
        concat_chars(&t, &suffix)
    };
    let fs = string_of(&full);
    match crate::netaddr::parse_net(fs.as_str()) {
        None => Err(String::from_str("invalid CIDR")),
        Some((v6, prefix, text)) => {
            if v6 {
                Err(String::from_str("IPv4 only"))
            } else if prefix < 16 {
                Err(String::from_str("prefix too broad (minimum /16)"))
            } else {
                proof {
                    let t = text@;
                    assert(t.len() > 0);
                    assert(v4_net_char_at(t, 0));
                    assert(v4_net_char_at(t, t.len() - 1));
                    assert(!crate::text::is_ws(t[0]));
                    assert(!crate::text::is_ws(t.last()));
                    assert(crate::text::trim_start(t) == t);
                    assert(crate::text::trim_end(t) == t);
                }
                Ok(text)
            }
        },
    }
}

/// Position `i` of `t` holds a character of an IPv4 network's text.
spec fn v4_net_char_at(t: Seq<char>, i: int) -> bool {
    crate::netaddr::v4_net_char(t[i])
}

} // verus!

verus! {

/// The note a policy carries into the engine file: its `reason` (default `cso`), at most
/// 120 characters, double quotes removed.
pub open spec fn policy_reason(item: JsonV) -> Seq<char> {
    strip_char(take_at_most(str_or(item, "reason"@, "cso"@), 120), '"')
}

/// The label of a policy: its `name` (or, with no `name` field, its `id`) when that is a
/// string, else `policy`; at most 48 characters.
pub open spec fn policy_label(item: JsonV) -> Seq<char> {
    let raw = match jget(item, "name"@) {
        Some(v) => jstr(Some(v)),
        None => jstr(jget(item, "id"@)),
    };
    take_at_most(
        match raw {
            Some(s) => s,
            None => "policy"@,
        },
        48,
    )
}

/// The `pre_eval` entry that removes `rule` from in-band evaluation where `filt` holds.
pub open spec fn pre_eval_text(note: Seq<char>, filt: Seq<char>, rule: Seq<char>) -> Seq<char> {
    "  # "@ + note + "\n  - filter: |\n      "@ + filt + "\n    apply:\n"@
        + "      - RemoveInBandRuleByName(\""@ + rule + "\")\n"@
}

/// The `on_match` entry that allows the request and cancels the alert where `filt` holds.
pub open spec fn on_match_text(note: Seq<char>, filt: Seq<char>) -> Seq<char> {
    "  # "@ + note + "\n  - filter: |\n      "@ + filt + "\n    apply:\n"@
        + "      - SetRemediation(\"allow\")\n      - CancelAlert()\n      - CancelEvent()\n"@
}

/// The engine filter matching requests for `host`.
pub open spec fn host_filter(host: Seq<char>) -> Seq<char> {
    "req.Host == \""@ + host + "\""@
}

/// The engine condition on a path prefix.
pub open spec fn path_filter(path: Seq<char>) -> Seq<char> {
    " && req.URL.Path startsWith \""@ + path + "\""@
}

/// What one stored policy contributes to the engine file: nothing for a non-object or a
/// disabled policy; else a `pre_eval` entry (`true`) or an `on_match` entry (`false`), or
/// the first validation error.
pub open spec fn policy_hook(item: JsonV, cat: Catalog) -> Result<
    Option<(bool, Seq<char>)>,
    Seq<char>,
> {
    if !(item is Object) || !bool_or(item, "enabled"@, true) {
        Ok(None)
    } else {
        match host_verdict(str_or_empty(item, "host"@), cat) {
            Err(m) => Err(m),
            Ok(host) => {
                let action = str_or_empty(item, "action"@);
                let reason = policy_reason(item);
                let label = policy_label(item);
                if action == "skip_rule"@ {
                    match rule_verdict(str_or_empty(item, "rule"@)) {
                        Err(m) => Err(m),
                        Ok(rule) => {
                            let base = "IsInBand == true && "@ + host_filter(host);
                            match jstr(jget(item, "path_prefix"@)) {
                                Some(p) if p.len() > 0 => match path_verdict(p) {
                                    Err(m) => Err(m),
                                    Ok(path) => Ok(
                                        Some(
                                            (
                                                true,
                                                pre_eval_text(
                                                    label + ": "@ + reason,
                                                    base + path_filter(path),
                                                    rule,
                                                ),
                                            ),
                                        ),
                                    ),
                                },
                                _ => Ok(Some((true, pre_eval_text(label + ": "@ + reason, base, rule)))),
                            }
                        },
                    }
                } else if action == "allow_match"@ {
                    match path_verdict(str_or_empty(item, "path_prefix"@)) {
                        Err(m) => Err(m),
                        Ok(path) => Ok(
                            Some(
                                (
                                    false,
                                    on_match_text(
                                        label + ": "@ + reason,
                                        host_filter(host) + path_filter(path),
                                    ),
                                ),
                            ),
                        ),
                    }
                } else if action == "bypass_host"@ {
                    let note = if reason.len() == 0 {
                        "bypass host"@
                    } else {
                        reason
                    };
                    Ok(Some((false, on_match_text(label + ": "@ + note, host_filter(host)))))
                } else {
                    Err("unknown action"@)
                }
            },
        }
    }
}

/// The `pre_eval` and `on_match` bodies of the engine file for `items`, or the first error.
pub open spec fn hook_bodies(items: Seq<JsonV>, cat: Catalog) -> Result<
    (Seq<char>, Seq<char>),
    Seq<char>,
>
    decreases items.len(),
{
    if items.len() == 0 {
        Ok((Seq::empty(), Seq::empty()))
    } else {
        match hook_bodies(items.drop_last(), cat) {
            Err(m) => Err(m),
            Ok((pre, on)) => match policy_hook(items.last(), cat) {
                Err(m) => Err(m),
                Ok(None) => Ok((pre, on)),
                Ok(Some((true, t))) => Ok((pre + t, on)),
                Ok(Some((false, t))) => Ok((pre, on + t)),
            },
        }
    }
}

/// The first line of the engine file.
pub open spec fn yaml_banner() -> Seq<char> {
    "# Generated by peritumct-waf-console. Hooks only: allow path, skip named rule, host bypass.\n"@
}

/// The engine file for the given hook bodies; an empty section is left out.
pub open spec fn yaml_document(name: Seq<char>, pre: Seq<char>, on: Seq<char>) -> Seq<char> {
    yaml_banner() + "name: "@ + name + "\n"@
        + (if pre.len() > 0 { "pre_eval:\n"@ + pre } else { Seq::empty() })
        + (if on.len() > 0 { "on_match:\n"@ + on } else { Seq::empty() })
}

/// What `render_yaml` answers: the document, unless a policy is invalid or the document
/// mentions a forbidden engine setting.
pub open spec fn render_verdict(items: Seq<JsonV>, cat: Catalog, name: Seq<char>) -> Result<
    Seq<char>,
    Seq<char>,
> {
    match hook_bodies(items, cat) {
        Err(m) => Err(m),
        Ok((pre, on)) => {
            let doc = yaml_document(name, pre, on);
            match forbidden_verdict(seq![doc]) {
                Err(m) => Err(m),
                Ok(()) => Ok(doc),
            }
        },
    }
}

/// Builds one policy's hook entry.
fn policy_hook_exec(item: &Json, cat: &Catalog) -> (r: Result<Option<(bool, Vec<char>)>, String>)
    ensures
        match policy_hook(item@, *cat) {
            Ok(None) => r matches Ok(None),
            Ok(Some((k, t))) => r matches Ok(Some((k2, t2))) && k2 == k && t2@ == t,
            Err(m) => r matches Err(e) && e@ == m,
        },
{
    if !is_object(item) || !get_bool_or(item, "enabled", true) {
        return Ok(None);
    }
    let host_raw = get_str_or_empty(item, "host");
    let host = match validate_host(host_raw.as_str(), cat) {
            Ok(v) => v,
            Err(e) => return Err(e),
        };
    let action_s = get_str_or_empty(item, "action");
    let action = chars_of(action_s.as_str());
    let reason_raw = get_str_or(item, "reason", "cso");
    let reason_cut = take_chars(&reason_raw, 120);
    let reason = strip_char_exec(&reason_cut, '"');
    let label_raw = match get(item, "name") {
        Some(v) => match v {
            Json::Str(s) => chars_of(s.as_str()),
            _ => chars_of("policy"),
        },
        None => get_str_or(item, "id", "policy"),
    };
    let label = take_chars(&label_raw, 48);
    let mut hostf: Vec<char> = Vec::new();
    append_str(&mut hostf, "req.Host == \"");
    append_str(&mut hostf, host.as_str());
    append_str(&mut hostf, "\"");
    let mut note = label.clone();
    append_str(&mut note, ": ");
    let skip = chars_of("skip_rule");
    let allow = chars_of("allow_match");
    let bypass = chars_of("bypass_host");
    if eq_chars(&action, &skip) {
        let rule_raw = get_str_or_empty(item, "rule");
        let rule = match validate_rule(rule_raw.as_str()) {
            Ok(v) => v,
            Err(e) => return Err(e),
        };
        append_chars(&mut note, &reason);
        let mut filt: Vec<char> = Vec::new();
        append_str(&mut filt, "IsInBand == true && ");
        append_chars(&mut filt, &hostf);
        match get_str(item, "path_prefix") {
            Some(p) => {
                let pc = chars_of(p.as_str());
                if pc.len() > 0 {
                    let path = match validate_path(p.as_str()) {
            Ok(v) => v,
            Err(e) => return Err(e),
        };
                    append_str(&mut filt, " && req.URL.Path startsWith \"");
                    append_str(&mut filt, path.as_str());
                    append_str(&mut filt, "\"");
                }
            },
            None => {},
        }
        let mut t: Vec<char> = Vec::new();
        append_str(&mut t, "  # ");
        append_chars(&mut t, &note);
        append_str(&mut t, "\n  - filter: |\n      ");
        append_chars(&mut t, &filt);
        append_str(&mut t, "\n    apply:\n");
        append_str(&mut t, "      - RemoveInBandRuleByName(\"");
        append_str(&mut t, rule.as_str());
        append_str(&mut t, "\")\n");
        Ok(Some((true, t)))
    } else if eq_chars(&action, &allow) {
        let path_raw = get_str_or_empty(item, "path_prefix");
        let path = match validate_path(path_raw.as_str()) {
            Ok(v) => v,
            Err(e) => return Err(e),
        };
        append_chars(&mut note, &reason);
        let mut filt = hostf.clone();
        append_str(&mut filt, " && req.URL.Path startsWith \"");
        append_str(&mut filt, path.as_str());
        append_str(&mut filt, "\"");
        Ok(Some((false, on_match_exec(&note, &filt))))
    } else if eq_chars(&action, &bypass) {
        if reason.len() == 0 {
            append_str(&mut note, "bypass host");
        } else {
            append_chars(&mut note, &reason);
        }
        Ok(Some((false, on_match_exec(&note, &hostf))))
    } else {
        Err(String::from_str("unknown action"))
    }
}

/// The `on_match` entry text.
fn on_match_exec(note: &Vec<char>, filt: &Vec<char>) -> (t: Vec<char>)
    ensures
        t@ == on_match_text(note@, filt@),
{
    let mut t: Vec<char> = Vec::new();
    append_str(&mut t, "  # ");
    append_chars(&mut t, note);
    append_str(&mut t, "\n  - filter: |\n      ");
    append_chars(&mut t, filt);
    append_str(&mut t, "\n    apply:\n");
    append_str(&mut t, "      - SetRemediation(\"allow\")\n      - CancelAlert()\n      - CancelEvent()\n");
    t
}

/// Renders the enabled policies as the CrowdSec AppSec hooks file named `appsec_name`.
pub fn render_yaml(items: &[Json], catalog: &Catalog, appsec_name: &str) -> (r: Result<String, String>)
    ensures
        match render_verdict(jviews(items@), *catalog, appsec_name@) {
            Ok(t) => r matches Ok(s) && s@ == t,
            Err(m) => r matches Err(e) && e@ == m,
        },
{
    let ghost all = jviews(items@);
    let mut pre: Vec<char> = Vec::new();
    let mut on: Vec<char> = Vec::new();
    let mut i: usize = 0;
    assert(all.take(0) =~= Seq::<JsonV>::empty());
    while i < items.len()
        invariant
            i <= items@.len() == all.len(),
            all == jviews(items@),
            hook_bodies(all.take(i as int), *catalog) == Ok::<(Seq<char>, Seq<char>), Seq<char>>((pre@, on@)),
        decreases items.len() - i,
    {
        let ghost before = all.take(i as int);
        assert(all.take(i + 1).drop_last() =~= before);
        assert(all.take(i + 1).last() == items@[i as int]@);
        match policy_hook_exec(&items[i], catalog) {
            Err(e) => {
                proof {
                    lemma_hook_bodies_err(all, i as int, *catalog);
                }
                return Err(e);
            },
            Ok(None) => {},
            Ok(Some((true, t))) => append_chars(&mut pre, &t),
            Ok(Some((false, t))) => append_chars(&mut on, &t),
        }
        i = i + 1;
    }
    assert(all.take(items.len() as int) =~= all);
    let mut doc: Vec<char> = Vec::new();
    append_str(&mut doc, "# Generated by peritumct-waf-console. Hooks only: allow path, skip named rule, host bypass.\n");
    append_str(&mut doc, "name: ");
    append_str(&mut doc, appsec_name);
    append_str(&mut doc, "\n");
    if pre.len() > 0 {
        append_str(&mut doc, "pre_eval:\n");
        append_chars(&mut doc, &pre);
    }
    if on.len() > 0 {
        append_str(&mut doc, "on_match:\n");
        append_chars(&mut doc, &on);
    }
    assert(doc@ =~= yaml_document(appsec_name@, pre@, on@));
    reject_one(&doc)?;
    Ok(string_of(&doc))
}

/// Once a prefix of the policies fails, every longer prefix fails with the same error.
proof fn lemma_hook_bodies_err(all: Seq<JsonV>, i: int, cat: Catalog)
    requires
        0 <= i < all.len(),
        hook_bodies(all.take(i), cat) is Ok,
        policy_hook(all[i], cat) is Err,
    ensures
        hook_bodies(all, cat) == Err::<(Seq<char>, Seq<char>), Seq<char>>(policy_hook(all[i], cat)->Err_0),
    decreases all.len() - i,
{
    let m = policy_hook(all[i], cat)->Err_0;
    assert(all.take(i + 1).drop_last() =~= all.take(i));
    lemma_err_persists(all, i + 1, cat, m);
}

/// An error of a prefix stays the error of the whole sequence.
proof fn lemma_err_persists(all: Seq<JsonV>, j: int, cat: Catalog, m: Seq<char>)
    requires
        0 <= j <= all.len(),
        hook_bodies(all.take(j), cat) == Err::<(Seq<char>, Seq<char>), Seq<char>>(m),
    ensures
        hook_bodies(all, cat) == Err::<(Seq<char>, Seq<char>), Seq<char>>(m),
    decreases all.len() - j,
{
    if j == all.len() {
        assert(all.take(j) =~= all);
    } else {
        assert(all.take(j + 1).drop_last() =~= all.take(j));
        lemma_err_persists(all, j + 1, cat, m);
    }
}

} // verus!

verus! {

/// The actions a policy may take.
pub open spec fn actions() -> Seq<Seq<char>> {
    seq!["allow_match"@, "skip_rule"@, "bypass_host"@]
}

/// Field `k` of the request, or else of the policy being edited.
pub open spec fn pick(payload: JsonV, existing: Option<JsonV>, k: Seq<char>) -> Option<JsonV> {
    match jget(payload, k) {
        Some(v) => Some(v),
        None => match existing {
            Some(e) => jget(e, k),
            None => None,
        },
    }
}

/// `pick` read as text, `dflt` where absent or not a string.
pub open spec fn pick_str(payload: JsonV, existing: Option<JsonV>, k: Seq<char>, dflt: Seq<char>) -> Seq<char> {
    match jstr(pick(payload, existing, k)) {
        Some(s) => s,
        None => dflt,
    }
}

/// A flag of the policy being edited, `dflt` where absent or not a boolean.
pub open spec fn existing_bool(existing: Option<JsonV>, k: Seq<char>, dflt: bool) -> bool {
    match existing {
        Some(e) => bool_or(e, k, dflt),
        None => dflt,
    }
}

/// `s` up to its first `c` (all of `s` when there is none): `split(c).next()`.
pub open spec fn before_char(s: Seq<char>, c: char) -> Seq<char> {
    if has_char(s, c) {
        s.take(find_char(s, c))
    } else {
        s
    }
}

/// The fields every composed policy has, in the order they are stored.
pub open spec fn policy_base(
    id: Seq<char>,
    name: Seq<char>,
    enabled: bool,
    action: Seq<char>,
    host: Seq<char>,
    reason: Seq<char>,
    created: JsonV,
    now: Seq<char>,
) -> Seq<(Seq<char>, JsonV)> {
    seq![
        ("id"@, JsonV::Str(id)),
        ("name"@, JsonV::Str(name)),
        ("enabled"@, JsonV::Bool(enabled)),
        ("action"@, JsonV::Str(action)),
        ("host"@, JsonV::Str(host)),
        ("reason"@, JsonV::Str(reason)),
        ("created_at"@, created),
        ("updated_at"@, JsonV::Str(now)),
    ]
}

/// What `compose_policy` answers: the stored form of a create (`existing` is `None`) or an
/// edit request, given the identifier a new policy gets and the current time; or the first
/// validation error.
pub open spec fn compose_verdict(
    payload: JsonV,
    existing: Option<JsonV>,
    cat: Catalog,
    fresh_id: Seq<char>,
    now: Seq<char>,
) -> Result<Seq<(Seq<char>, JsonV)>, Seq<char>> {
    let action = trim(pick_str(payload, existing, "action"@, Seq::empty()));
    if !actions().contains(action) {
        Err("action must be allow_match, skip_rule or bypass_host"@)
    } else {
        match host_verdict(pick_str(payload, existing, "host"@, Seq::empty()), cat) {
            Err(m) => Err(m),
            Ok(host) => {
                let reason = take_at_most(pick_str(payload, existing, "reason"@, "cso-console"@), 120);
                match forbidden_verdict(seq![reason]) {
                    Err(m) => Err(m),
                    Ok(()) => match name_verdict(pick_str(payload, existing, "name"@, Seq::empty())) {
                        Err(m) => Err(m),
                        Ok(name) => {
                            let id = match existing {
                                Some(e) => match jstr(jget(e, "id"@)) {
                                    Some(s) => s,
                                    None => fresh_id,
                                },
                                None => fresh_id,
                            };
                            let shown = if name.len() == 0 {
                                action + "-"@ + before_char(host, '.')
                            } else {
                                name
                            };
                            let enabled = if jget(payload, "enabled"@) is Some {
                                bool_or(payload, "enabled"@, true)
                            } else {
                                existing_bool(existing, "enabled"@, true)
                            };
                            let created = match existing {
                                Some(e) => match jget(e, "created_at"@) {
                                    Some(c) => c,
                                    None => JsonV::Str(now),
                                },
                                None => JsonV::Str(now),
                            };
                            let base = policy_base(id, shown, enabled, action, host, reason, created, now);
                            if action == "allow_match"@ {
                                match path_verdict(pick_str(payload, existing, "path_prefix"@, Seq::empty())) {
                                    Err(m) => Err(m),
                                    Ok(p) => Ok(base.push(("path_prefix"@, JsonV::Str(p)))),
                                }
                            } else if action == "skip_rule"@ {
                                match rule_verdict(pick_str(payload, existing, "rule"@, Seq::empty())) {
                                    Err(m) => Err(m),
                                    Ok(rule) => {
                                        let with_rule = base.push(("rule"@, JsonV::Str(rule)));
                                        let path = if jget(payload, "path_prefix"@) is Some {
                                            str_or_empty(payload, "path_prefix"@)
                                        } else {
                                            match existing {
                                                Some(e) => str_or_empty(e, "path_prefix"@),
                                                None => Seq::empty(),
                                            }
                                        };
                                        if path.len() == 0 {
                                            Ok(with_rule)
                                        } else {
                                            match path_verdict(path) {
                                                Err(m) => Err(m),
                                                Ok(p) => Ok(with_rule.push(("path_prefix"@, JsonV::Str(p)))),
                                            }
                                        }
                                    },
                                }
                            } else if bool_or(payload, "confirm"@, false) || existing_bool(existing, "confirm"@, false) {
                                Ok(base.push(("confirm"@, JsonV::Bool(true))))
                            } else {
                                Err("bypass_host requires confirm=true"@)
                            }
                        },
                    },
                }
            },
        }
    }
}

/// Field `key` of the request, or else of the policy being edited.
fn pick_exec<'a>(payload: &'a Json, existing: Option<&'a Json>, key: &str) -> (r: Option<&'a Json>)
    ensures
        match r {
            Some(v) => pick(payload@, opt_view(existing), key@) == Some(v@),
            None => pick(payload@, opt_view(existing), key@) is None,
        },
{
    match get(payload, key) {
        Some(v) => Some(v),
        None => match existing {
            Some(e) => get(e, key),
            None => None,
        },
    }
}

/// The view of an optional JSON value.
pub open spec fn opt_view(o: Option<&Json>) -> Option<JsonV> {
    match o {
        Some(j) => Some(j@),
        None => None,
    }
}

/// `pick` read as text.
fn pick_str_exec(payload: &Json, existing: Option<&Json>, key: &str, dflt: &str) -> (r: Vec<char>)
    ensures
        r@ == pick_str(payload@, opt_view(existing), key@, dflt@),
{
    match pick_exec(payload, existing, key) {
        Some(Json::Str(s)) => chars_of(s.as_str()),
        _ => chars_of(dflt),
    }
}

/// `pick` read as text, empty where absent or not a string.
fn pick_text(payload: &Json, existing: Option<&Json>, key: &str) -> (r: Vec<char>)
    ensures
        r@ == pick_str(payload@, opt_view(existing), key@, Seq::empty()),
{
    match pick_exec(payload, existing, key) {
        Some(Json::Str(s)) => chars_of(s.as_str()),
        _ => Vec::new(),
    }
}

/// A flag of the policy being edited.
fn existing_bool_exec(existing: Option<&Json>, key: &str, dflt: bool) -> (r: bool)
    ensures
        r == existing_bool(opt_view(existing), key@, dflt),
{
    match existing {
        Some(e) => get_bool_or(e, key, dflt),
        None => dflt,
    }
}

/// `s` up to its first `c`.
fn before_char_exec(s: &Vec<char>, c: char) -> (r: Vec<char>)
    ensures
        r@ == before_char(s@, c),
{
    match find_char_exec(s, c) {
        Some(i) => slice_chars(s, 0, i),
        None => s.clone(),
    }
}

/// Builds the stored form of a policy from a create or edit request, with `fresh_id` as
/// the identifier of a new policy and `now` as the time stamp.
#[verifier::spinoff_prover]
#[verifier::rlimit(40)]
pub fn compose_policy_at(
    payload: &Json,
    existing: Option<&Json>,
    catalog: &Catalog,
    fresh_id: &str,
    now: &str,
) -> (r: Result<Json, String>)
    ensures
        match compose_verdict(payload@, opt_view(existing), *catalog, fresh_id@, now@) {
            Ok(f) => r matches Ok(j) && j@ == JsonV::Object(f),
            Err(m) => r matches Err(e) && e@ == m,
        },
{
    let ghost ex = opt_view(existing);
    let action_raw = pick_text(payload, existing, "action");
    let action = trim_chars(&action_raw);
    let a1 = chars_of("allow_match");
    let a2 = chars_of("skip_rule");
    let a3 = chars_of("bypass_host");
    let is_allow = eq_chars(&action, &a1);
    let is_skip = eq_chars(&action, &a2);
    let is_bypass = eq_chars(&action, &a3);
    proof {
        let acts = actions();
        assert(acts[0] == "allow_match"@ && acts[1] == "skip_rule"@ && acts[2] == "bypass_host"@);
        if acts.contains(action@) {
            let k = choose|k: int| 0 <= k < acts.len() && acts[k] == action@;
            assert(k == 0 || k == 1 || k == 2);
        }
    }
    if !is_allow && !is_skip && !is_bypass {
        return Err(String::from_str("action must be allow_match, skip_rule or bypass_host"));
    }
    let host_raw = pick_text(payload, existing, "host");
    let host_s = string_of(&host_raw);
    let host = match validate_host(host_s.as_str(), catalog) {
        Ok(h) => h,
        Err(e) => return Err(e),
    };
    let reason_raw = pick_str_exec(payload, existing, "reason", "cso-console");
    let reason = take_chars(&reason_raw, 120);
    match reject_one(&reason) {
        Ok(()) => {},
        Err(e) => return Err(e),
    }
    let name_raw = pick_text(payload, existing, "name");
    let name_s = string_of(&name_raw);
    let name = match validate_name(name_s.as_str()) {
        Ok(n) => n,
        Err(e) => return Err(e),
    };
    let id: String = match existing {
        Some(e) => match get_str(e, "id") {
            Some(s) => s.clone(),
            None => String::from_str(fresh_id),
        },
        None => String::from_str(fresh_id),
    };
    let name_c = chars_of(name.as_str());
    let shown: String = if name_c.len() == 0 {
        let host_c = chars_of(host.as_str());
        let prefix = before_char_exec(&host_c, '.');
        let mut t = action.clone();
        append_str(&mut t, "-");
        append_chars(&mut t, &prefix);
        string_of(&t)
    } else {
        name
    };
    let enabled = match get(payload, "enabled") {
        Some(_) => get_bool_or(payload, "enabled", true),
        None => existing_bool_exec(existing, "enabled", true),
    };
    let created = match existing {
        Some(e) => match get(e, "created_at") {
            Some(c) => clone_json(c),
            None => Json::Str(String::from_str(now)),
        },
        None => Json::Str(String::from_str(now)),
    };
    let mut fields: Vec<(String, Json)> = Vec::new();
    fields.push((String::from_str("id"), Json::Str(id)));
    fields.push((String::from_str("name"), Json::Str(shown)));
    fields.push((String::from_str("enabled"), Json::Bool(enabled)));
    fields.push((String::from_str("action"), Json::Str(string_of(&action))));
    fields.push((String::from_str("host"), Json::Str(host)));
    fields.push((String::from_str("reason"), Json::Str(string_of(&reason))));
    fields.push((String::from_str("created_at"), created));
    fields.push((String::from_str("updated_at"), Json::Str(String::from_str(now))));
    if is_allow {
        let p_raw = pick_text(payload, existing, "path_prefix");
        let p_s = string_of(&p_raw);
        let p = match validate_path(p_s.as_str()) {
            Ok(p) => p,
            Err(e) => return Err(e),
        };
        fields.push((String::from_str("path_prefix"), Json::Str(p)));
    } else if is_skip {
        let r_raw = pick_text(payload, existing, "rule");
        let r_s = string_of(&r_raw);
        let rule = match validate_rule(r_s.as_str()) {
            Ok(x) => x,
            Err(e) => return Err(e),
        };
        fields.push((String::from_str("rule"), Json::Str(rule)));
        let path: String = match get(payload, "path_prefix") {
            Some(_) => get_str_or_empty(payload, "path_prefix"),
            None => match existing {
                Some(e) => get_str_or_empty(e, "path_prefix"),
                None => String::new(),
            },
        };
        let path_c = chars_of(path.as_str());
        if path_c.len() > 0 {
            let p = match validate_path(path.as_str()) {
                Ok(p) => p,
                Err(e) => return Err(e),
            };
            fields.push((String::from_str("path_prefix"), Json::Str(p)));
        }
    } else {
        let confirmed = get_bool_or(payload, "confirm", false) || existing_bool_exec(existing, "confirm", false);
        if !confirmed {
            return Err(String::from_str("bypass_host requires confirm=true"));
        }
        fields.push((String::from_str("confirm"), Json::Bool(true)));
    }
    let r = Json::Object(fields);
    proof {
        lemma_object_view(r);
        assert(r@->Object_0 =~= compose_verdict(payload@, ex, *catalog, fresh_id@, now@)->Ok_0);
    }
    Ok(r)
}

/// Builds the stored form of a policy from a create (`existing` is `None`) or edit request:
/// a new policy gets a fresh random identifier, and both time stamps are the current time.
/// What comes back for given identifier and time is `compose_policy_at`'s answer.
pub fn compose_policy(payload: &Json, existing: Option<&Json>, catalog: &Catalog) -> (r: Result<Json, String>)
    ensures
        exists|id: Seq<char>, now: Seq<char>|
            id.len() == 12 && (forall|i: int| 0 <= i < 12 ==> #[trigger] crate::fresh::is_hex_lower(id[i]))
                && crate::fresh::clock_shaped(now, crate::fresh::stamp_tail())
                && match #[trigger] compose_verdict(payload@, opt_view(existing), *catalog, id, now) {
                Ok(f) => r matches Ok(j) && j@ == JsonV::Object(f),
                Err(m) => r matches Err(e) && e@ == m,
            },
{
    let id = new_id();
    let now = utc_now();
    let r = compose_policy_at(payload, existing, catalog, id.as_str(), now.as_str());
    assert(match compose_verdict(payload@, opt_view(existing), *catalog, id@, now@) {
        Ok(f) => r matches Ok(j) && j@ == JsonV::Object(f),
        Err(m) => r matches Err(e) && e@ == m,
    });
    r
}

} // verus!

verus! {

/// The `id` of a stored policy, where it is a string.
pub open spec fn item_id(v: JsonV) -> Option<Seq<char>> {
    jstr(jget(v, "id"@))
}

/// The `name` of a stored policy, where it is a string.
pub open spec fn item_name(v: JsonV) -> Option<Seq<char>> {
    jstr(jget(v, "name"@))
}

/// Some stored policy other than those with id `exclude` is named `name`.
pub open spec fn name_taken(items: Seq<JsonV>, name: Seq<char>, exclude: Option<Seq<char>>) -> bool {
    exists|i: int|
        0 <= i < items.len() && #[trigger] item_name(items[i]) == Some(name) && !(exclude matches Some(x)
            && item_id(items[i]) == Some(x))
}

/// No two stored policies share a name.
pub open spec fn names_unique(items: Seq<JsonV>) -> bool {
    forall|i: int, j: int|
        0 <= i < items.len() && 0 <= j < items.len() && i != j && #[trigger] item_name(items[i]) is Some
            ==> item_name(items[i]) != #[trigger] item_name(items[j])
}

/// Refuses a policy name already used by another stored policy (one whose id is not
/// `exclude_id`).
pub fn assert_unique_name(items: &Vec<Json>, name: &Vec<char>, exclude_id: Option<&Vec<char>>) -> (r: Result<(), String>)
    ensures
        r is Ok <==> !name_taken(jviews(items@), name@, match exclude_id { Some(x) => Some(x@), None => None }),
        r matches Err(e) ==> e@ == "a policy with this name already exists"@,
{
    let ghost all = jviews(items@);
    let ghost ex: Option<Seq<char>> = match exclude_id { Some(x) => Some(x@), None => None };
    let mut i: usize = 0;
    while i < items.len()
        invariant
            i <= items@.len() == all.len(),
            all == jviews(items@),
            ex == match exclude_id { Some(x) => Some(x@), None => None::<Seq<char>> },
            forall|m: int| 0 <= m < i ==> !(#[trigger] item_name(all[m]) == Some(name@) && !(ex matches Some(x) && item_id(all[m]) == Some(x))),
        decreases items.len() - i,
    {
        assert(all[i as int] == items@[i as int]@);
        if field_is(&items[i], "name", name) {
            let excluded = match exclude_id {
                Some(x) => field_is(&items[i], "id", x),
                None => false,
            };
            if !excluded {
                assert(item_name(all[i as int]) == Some(name@));
                return Err(String::from_str("a policy with this name already exists"));
            }
        }
        i = i + 1;
    }
    Ok(())
}

/// The composed fields with the `name` entry (the second one) replaced.
pub open spec fn with_name(f: Seq<(Seq<char>, JsonV)>, n: Seq<char>) -> Seq<(Seq<char>, JsonV)> {
    f.update(1, ("name"@, JsonV::Str(n)))
}

/// The name a new policy falls back to when its derived name is taken: the name, a dash and
/// the first six characters of its id.
pub open spec fn fallback_name(name: Seq<char>, id: Seq<char>) -> Seq<char> {
    name + "-"@ + take_at_most(id, 6)
}

/// What `add_filter` answers: the new policy, the new list and the engine file, or the
/// first error.
pub open spec fn add_verdict(
    items: Seq<JsonV>,
    payload: JsonV,
    cat: Catalog,
    fresh_id: Seq<char>,
    now: Seq<char>,
    appsec: Seq<char>,
) -> Result<(JsonV, Seq<JsonV>, Seq<char>), Seq<char>> {
    match compose_verdict(payload, None, cat, fresh_id, now) {
        Err(m) => Err(m),
        Ok(f) => match name_verdict(str_or_empty(payload, "name"@)) {
            Err(m) => Err(m),
            Ok(given) => {
                let name = str_or_empty(JsonV::Object(f), "name"@);
                let id = str_or_empty(JsonV::Object(f), "id"@);
                let chosen = if !name_taken(items, name, None) {
                    Ok(JsonV::Object(f))
                } else if given.len() > 0 || name_taken(items, fallback_name(name, id), None) {
                    Err("a policy with this name already exists"@)
                } else {
                    Ok(JsonV::Object(with_name(f, fallback_name(name, id))))
                };
                match chosen {
                    Err(m) => Err(m),
                    Ok(item) => match render_verdict(items.push(item), cat, appsec) {
                        Err(m) => Err(m),
                        Ok(yaml) => Ok((item, items.push(item), yaml)),
                    },
                }
            },
        },
    }
}

/// Adds a policy to the stored list (`fresh_id` is the new policy's id, `now` the time
/// stamp) and renders the engine file for the new list. On error the list is unchanged.
pub fn add_filter_at(
    items: &mut Vec<Json>,
    payload: &Json,
    catalog: &Catalog,
    fresh_id: &str,
    now: &str,
    appsec_name: &str,
) -> (r: Result<(Json, String), String>)
    ensures
        match add_verdict(jviews(old(items)@), payload@, *catalog, fresh_id@, now@, appsec_name@) {
            Ok((item, next, yaml)) => r matches Ok((j, y)) && j@ == item && y@ == yaml && jviews(final(items)@) == next,
            Err(m) => r matches Err(e) && e@ == m && final(items)@ == old(items)@,
        },
{
    let ghost all = jviews(items@);
    let item0 = match compose_policy_at(payload, None, catalog, fresh_id, now) {
        Ok(j) => j,
        Err(e) => return Err(e),
    };
    let given_raw = get_str_or_empty(payload, "name");
    let given = match validate_name(given_raw.as_str()) {
        Ok(g) => g,
        Err(e) => return Err(e),
    };
    let given_c = chars_of(given.as_str());
    let name_s = get_str_or_empty(&item0, "name");
    let name = chars_of(name_s.as_str());
    let item = match assert_unique_name(items, &name, None) {
        Ok(()) => item0,
        Err(e) => {
            if given_c.len() > 0 {
                return Err(e);
            }
            let id_s = get_str_or_empty(&item0, "id");
            let id_c = chars_of(id_s.as_str());
            let short = take_chars(&id_c, 6);
            let mut alt = name.clone();
            append_str(&mut alt, "-");
            append_chars(&mut alt, &short);
            match assert_unique_name(items, &alt, None) {
                Ok(()) => {},
                Err(e2) => return Err(e2),
            }
            match item0 {
                Json::Object(mut fields) => {
                    proof {
                        lemma_object_view(Json::Object(fields));
                    }
                    let ghost f0 = fields@;
                    fields.set(1, (String::from_str("name"), Json::Str(string_of(&alt))));
                    let j = Json::Object(fields);
                    proof {
                        lemma_object_view(j);
                        assert(j@->Object_0 =~= with_name(
                            compose_verdict(payload@, None, *catalog, fresh_id@, now@)->Ok_0,
                            alt@,
                        ));
                    }
                    j
                },
                _ => return Err(String::from_str("a policy with this name already exists")),
            }
        },
    };
    let mut next = clone_all(items);
    let ghost item_v = item@;
    next.push(item);
    assert(jviews(next@) =~= all.push(item_v));
    let yaml = match render_yaml(next.as_slice(), catalog, appsec_name) {
        Ok(y) => y,
        Err(e) => return Err(e),
    };
    let out = clone_json(&next[next.len() - 1]);
    *items = next;
    Ok((out, yaml))
}

/// Adds a policy with a fresh random id, stamped with the current time; see `add_filter_at`.
pub fn add_filter(items: &mut Vec<Json>, payload: &Json, catalog: &Catalog, appsec_name: &str) -> (r: Result<(Json, String), String>)
    ensures
        r is Err ==> final(items)@ == old(items)@,
        r matches Ok((j, _)) ==> jviews(final(items)@) == jviews(old(items)@).push(j@),
        exists|id: Seq<char>, now: Seq<char>|
            id.len() == 12 && (forall|i: int| 0 <= i < 12 ==> #[trigger] crate::fresh::is_hex_lower(id[i]))
                && crate::fresh::clock_shaped(now, crate::fresh::stamp_tail())
                && match #[trigger] add_verdict(jviews(old(items)@), payload@, *catalog, id, now, appsec_name@) {
                Ok((item, next, yaml)) => r matches Ok((j, y)) && j@ == item && y@ == yaml && jviews(final(items)@) == next,
                Err(m) => r matches Err(e) && e@ == m && final(items)@ == old(items)@,
            },
{
    let ghost before = jviews(items@);
    let id = new_id();
    let now = utc_now();
    let r = add_filter_at(items, payload, catalog, id.as_str(), now.as_str(), appsec_name);
    assert(match add_verdict(before, payload@, *catalog, id@, now@, appsec_name@) {
        Ok((item, next, yaml)) => r matches Ok((j, y)) && j@ == item && y@ == yaml && jviews(items@) == next,
        Err(m) => r matches Err(e) && e@ == m && jviews(items@) == before,
    });
    r
}

} // verus!

verus! {

/// Index of the first stored policy whose id is `fid`.
pub open spec fn index_of_id(items: Seq<JsonV>, fid: Seq<char>) -> Option<int> {
    if exists|i: int| 0 <= i < items.len() && #[trigger] item_id(items[i]) == Some(fid) {
        Some(
            choose|i: int|
                0 <= i < items.len() && #[trigger] item_id(items[i]) == Some(fid) && forall|j: int|
                    0 <= j < i ==> #[trigger] item_id(items[j]) != Some(fid),
        )
    } else {
        None
    }
}

/// What `update_filter` answers: the edited policy, the new list and the engine file, or
/// the first error.
pub open spec fn update_verdict(
    items: Seq<JsonV>,
    payload: JsonV,
    cat: Catalog,
    fresh_id: Seq<char>,
    now: Seq<char>,
    appsec: Seq<char>,
) -> Result<(JsonV, Seq<JsonV>, Seq<char>), Seq<char>> {
    let fid = trim(str_or_empty(payload, "id"@));
    if fid.len() == 0 {
        Err("id required to edit"@)
    } else {
        match index_of_id(items, fid) {
            None => Err("policy not found"@),
            Some(idx) => {
                let existing = if items[idx] is Object { Some(items[idx]) } else { None };
                match compose_verdict(payload, existing, cat, fresh_id, now) {
                    Err(m) => Err(m),
                    Ok(f) => {
                        let item = JsonV::Object(f);
                        if name_taken(items, str_or_empty(item, "name"@), Some(fid)) {
                            Err("a policy with this name already exists"@)
                        } else {
                            match render_verdict(items.update(idx, item), cat, appsec) {
                                Err(m) => Err(m),
                                Ok(yaml) => Ok((item, items.update(idx, item), yaml)),
                            }
                        }
                    },
                }
            },
        }
    }
}

/// Finds the first stored policy whose id is `fid`.
fn find_policy(items: &Vec<Json>, fid: &Vec<char>) -> (r: Option<usize>)
    ensures
        match r {
            Some(i) => index_of_id(jviews(items@), fid@) == Some(i as int) && i < items@.len(),
            None => index_of_id(jviews(items@), fid@) is None,
        },
{
    let ghost all = jviews(items@);
    let mut i: usize = 0;
    while i < items.len()
        invariant
            i <= items@.len() == all.len(),
            all == jviews(items@),
            forall|m: int| 0 <= m < i ==> #[trigger] item_id(all[m]) != Some(fid@),
        decreases items.len() - i,
    {
        assert(all[i as int] == items@[i as int]@);
        if field_is(&items[i], "id", fid) {
            proof {
                assert(item_id(all[i as int]) == Some(fid@));
                let w = index_of_id(all, fid@)->Some_0;
                assert(item_id(all[w]) == Some(fid@));
                if w < i {
                } else if w > i {
                    assert(item_id(all[i as int]) != Some(fid@));
                }
            }
            return Some(i);
        }
        i = i + 1;
    }
    None
}

/// Edits a stored policy (`fresh_id` names it only if its stored form has no id; `now` is
/// the time stamp) and renders the engine file for the new list. On error the list is
/// unchanged.
pub fn update_filter_at(
    items: &mut Vec<Json>,
    payload: &Json,
    catalog: &Catalog,
    fresh_id: &str,
    now: &str,
    appsec_name: &str,
) -> (r: Result<(Json, String), String>)
    ensures
        match update_verdict(jviews(old(items)@), payload@, *catalog, fresh_id@, now@, appsec_name@) {
            Ok((item, next, yaml)) => r matches Ok((j, y)) && j@ == item && y@ == yaml && jviews(final(items)@) == next,
            Err(m) => r matches Err(e) && e@ == m && final(items)@ == old(items)@,
        },
        r is Err ==> final(items)@ == old(items)@,
        r is Ok ==> final(items)@.len() == old(items)@.len(),
{
    let ghost all = jviews(items@);
    let fid_s = get_str_or_empty(payload, "id");
    let fid_raw = chars_of(fid_s.as_str());
    let fid = trim_chars(&fid_raw);
    if fid.len() == 0 {
        return Err(String::from_str("id required to edit"));
    }
    let idx = match find_policy(items, &fid) {
        Some(i) => i,
        None => return Err(String::from_str("policy not found")),
    };
    assert(all[idx as int] == items@[idx as int]@);
    let existing: Option<&Json> = if is_object(&items[idx]) { Some(&items[idx]) } else { None };
    let item = match compose_policy_at(payload, existing, catalog, fresh_id, now) {
        Ok(j) => j,
        Err(e) => return Err(e),
    };
    let name_s = get_str_or_empty(&item, "name");
    let name = chars_of(name_s.as_str());
    match assert_unique_name(items, &name, Some(&fid)) {
        Ok(()) => {},
        Err(e) => return Err(e),
    }
    let mut next = clone_all(items);
    let ghost item_v = item@;
    next.set(idx, item);
    assert(jviews(next@) =~= all.update(idx as int, item_v));
    let yaml = match render_yaml(next.as_slice(), catalog, appsec_name) {
        Ok(y) => y,
        Err(e) => return Err(e),
    };
    let out = clone_json(&next[idx]);
    *items = next;
    Ok((out, yaml))
}

/// Edits a stored policy, stamped with the current time; see `update_filter_at`.
pub fn update_filter(items: &mut Vec<Json>, payload: &Json, catalog: &Catalog, appsec_name: &str) -> (r: Result<(Json, String), String>)
    ensures
        r is Err ==> final(items)@ == old(items)@,
        r is Ok ==> final(items)@.len() == old(items)@.len(),
        exists|id: Seq<char>, now: Seq<char>|
            id.len() == 12 && (forall|i: int| 0 <= i < 12 ==> #[trigger] crate::fresh::is_hex_lower(id[i]))
                && crate::fresh::clock_shaped(now, crate::fresh::stamp_tail())
                && match #[trigger] update_verdict(jviews(old(items)@), payload@, *catalog, id, now, appsec_name@) {
                Ok((item, next, yaml)) => r matches Ok((j, y)) && j@ == item && y@ == yaml && jviews(final(items)@) == next,
                Err(m) => r matches Err(e) && e@ == m && final(items)@ == old(items)@,
            },
{
    let ghost before = jviews(items@);
    let id = new_id();
    let now = utc_now();
    let r = update_filter_at(items, payload, catalog, id.as_str(), now.as_str(), appsec_name);
    assert(match update_verdict(before, payload@, *catalog, id@, now@, appsec_name@) {
        Ok((item, next, yaml)) => r matches Ok((j, y)) && j@ == item && y@ == yaml && jviews(items@) == next,
        Err(m) => r matches Err(e) && e@ == m && jviews(items@) == before,
    });
    r
}

/// The stored policies whose id is not `fid`, in order.
pub open spec fn without_id(items: Seq<JsonV>, fid: Seq<char>) -> Seq<JsonV>
    decreases items.len(),
{
    if items.len() == 0 {
        items
    } else if item_id(items.last()) == Some(fid) {
        without_id(items.drop_last(), fid)
    } else {
        without_id(items.drop_last(), fid).push(items.last())
    }
}

/// What `delete_filter` answers: the reply, the new list and the engine file, or an error.
pub open spec fn delete_verdict(items: Seq<JsonV>, fid: Seq<char>, cat: Catalog, appsec: Seq<char>) -> Result<
    (JsonV, Seq<JsonV>, Seq<char>),
    Seq<char>,
> {
    let f = trim(fid);
    let kept = without_id(items, f);
    if kept.len() == items.len() {
        Err("policy not found"@)
    } else {
        match render_verdict(kept, cat, appsec) {
            Err(m) => Err(m),
            Ok(yaml) => Ok(
                (JsonV::Object(seq![("ok"@, JsonV::Bool(true)), ("id"@, JsonV::Str(f))]), kept, yaml),
            ),
        }
    }
}

/// Removes every stored policy whose id is `fid` (trimmed) and renders the engine file for
/// the new list. On error the list is unchanged.
pub fn delete_filter(items: &mut Vec<Json>, fid: &str, catalog: &Catalog, appsec_name: &str) -> (r: Result<(Json, String), String>)
    ensures
        match delete_verdict(jviews(old(items)@), fid@, *catalog, appsec_name@) {
            Ok((reply, next, yaml)) => r matches Ok((j, y)) && j@ == reply && y@ == yaml && jviews(final(items)@) == next,
            Err(m) => r matches Err(e) && e@ == m && final(items)@ == old(items)@,
        },
{
    let ghost all = jviews(items@);
    let raw = chars_of(fid);
    let f = trim_chars(&raw);
    let mut kept: Vec<Json> = Vec::new();
    let mut i: usize = 0;
    assert(all.take(0) =~= Seq::<JsonV>::empty());
    while i < items.len()
        invariant
            i <= items@.len() == all.len(),
            all == jviews(items@),
            jviews(kept@) == without_id(all.take(i as int), f@),
        decreases items.len() - i,
    {
        assert(all.take(i + 1).drop_last() =~= all.take(i as int));
        assert(all.take(i + 1).last() == items@[i as int]@);
        if !field_is(&items[i], "id", &f) {
            let ghost before = kept@;
            kept.push(clone_json(&items[i]));
            assert(jviews(kept@) =~= jviews(before).push(items@[i as int]@));
        }
        i = i + 1;
    }
    assert(all.take(items.len() as int) =~= all);
    proof {
        lemma_without_id_len(all, f@);
    }
    if kept.len() == items.len() {
        return Err(String::from_str("policy not found"));
    }
    let yaml = match render_yaml(kept.as_slice(), catalog, appsec_name) {
        Ok(y) => y,
        Err(e) => return Err(e),
    };
    let mut fields: Vec<(String, Json)> = Vec::new();
    fields.push((String::from_str("ok"), Json::Bool(true)));
    fields.push((String::from_str("id"), Json::Str(string_of(&f))));
    let reply = Json::Object(fields);
    proof {
        lemma_object_view(reply);
        assert(reply@->Object_0 =~= seq![("ok"@, JsonV::Bool(true)), ("id"@, JsonV::Str(f@))]);
    }
    *items = kept;
    Ok((reply, yaml))
}

/// Filtering never lengthens the list.
proof fn lemma_without_id_len(items: Seq<JsonV>, fid: Seq<char>)
    ensures
        without_id(items, fid).len() <= items.len(),
    decreases items.len(),
{
    if items.len() > 0 {
        lemma_without_id_len(items.drop_last(), fid);
    }
}

} // verus!

verus! {

/// What `toggle_filter` answers: the switched policy, the new list and the engine file, or
/// an error.
pub open spec fn toggle_verdict(items: Seq<JsonV>, fid: Seq<char>, enabled: bool, cat: Catalog, appsec: Seq<char>) -> Result<
    (JsonV, Seq<JsonV>, Seq<char>),
    Seq<char>,
> {
    match index_of_id(items, fid) {
        None => Err("policy not found"@),
        Some(i) => {
            let item = set_field(items[i], "enabled"@, JsonV::Bool(enabled));
            match render_verdict(items.update(i, item), cat, appsec) {
                Err(m) => Err(m),
                Ok(yaml) => Ok((item, items.update(i, item), yaml)),
            }
        },
    }
}

/// Switches the first stored policy whose id is `fid` on or off and renders the engine file
/// for the new list. On error the list is unchanged.
pub fn toggle_filter(items: &mut Vec<Json>, fid: &str, enabled: bool, catalog: &Catalog, appsec_name: &str) -> (r: Result<(Json, String), String>)
    ensures
        match toggle_verdict(jviews(old(items)@), fid@, enabled, *catalog, appsec_name@) {
            Ok((item, next, yaml)) => r matches Ok((j, y)) && j@ == item && y@ == yaml && jviews(final(items)@) == next,
            Err(m) => r matches Err(e) && e@ == m && final(items)@ == old(items)@,
        },
{
    let ghost all = jviews(items@);
    let f = chars_of(fid);
    let idx = match find_policy(items, &f) {
        Some(i) => i,
        None => return Err(String::from_str("policy not found")),
    };
    assert(all[idx as int] == items@[idx as int]@);
    let mut next = clone_all(items);
    assert(next@[idx as int]@ == all[idx as int]);
    let cur = clone_json(&next[idx]);
    let ghost cur_v = cur@;
    let item = match cur {
        Json::Object(mut fields) => {
            proof {
                lemma_object_fview(Json::Object(fields));
            }
            obj_set(&mut fields, "enabled", Json::Bool(enabled));
            let j = Json::Object(fields);
            proof {
                lemma_object_fview(j);
            }
            j
        },
        other => other,
    };
    assert(item@ == set_field(cur_v, "enabled"@, JsonV::Bool(enabled)));
    let ghost item_v = item@;
    next.set(idx, item);
    assert(jviews(next@) =~= all.update(idx as int, item_v));
    let yaml = match render_yaml(next.as_slice(), catalog, appsec_name) {
        Ok(y) => y,
        Err(e) => return Err(e),
    };
    let out = clone_json(&next[idx]);
    *items = next;
    Ok((out, yaml))
}

} // verus!

verus! {

/// Switching a policy on or off sets its `enabled` flag to the requested value, leaves every
/// other stored policy as it was, and keeps the number of policies.
pub proof fn law_toggle_sets_enabled(items: Seq<JsonV>, fid: Seq<char>, enabled: bool, cat: Catalog, appsec: Seq<char>)
    requires
        toggle_verdict(items, fid, enabled, cat, appsec) is Ok,
    ensures
        ({
            let (item, next, _) = toggle_verdict(items, fid, enabled, cat, appsec)->Ok_0;
            &&& next.len() == items.len()
            &&& jget(item, "enabled"@) == Some(JsonV::Bool(enabled))
            &&& exists|i: int| 0 <= i < items.len() && item_id(items[i]) == Some(fid) && next[i] == item
                && forall|j: int| 0 <= j < items.len() && j != i ==> #[trigger] next[j] == items[j]
        }),
{
    lemma_index_of_id(items, fid, items.len() as int);
    let i = index_of_id(items, fid)->Some_0;
    assert(item_id(items[i]) == Some(fid));
    assert(items[i] is Object);
    lemma_set_entry_get(items[i]->Object_0, "enabled"@, JsonV::Bool(enabled), "enabled"@);
    let (item, next, _) = toggle_verdict(items, fid, enabled, cat, appsec)->Ok_0;
    assert(next[i] == item);
    assert(forall|j: int| 0 <= j < items.len() && j != i ==> #[trigger] next[j] == items[j]);
}

/// After a policy is deleted no stored policy has its id, every remaining policy was stored
/// before, and every policy with another id is kept, in order.
pub proof fn law_delete_removes(items: Seq<JsonV>, fid: Seq<char>, cat: Catalog, appsec: Seq<char>)
    requires
        delete_verdict(items, fid, cat, appsec) is Ok,
    ensures
        ({
            let (_, next, _) = delete_verdict(items, fid, cat, appsec)->Ok_0;
            &&& next.len() < items.len()
            &&& forall|i: int| 0 <= i < next.len() ==> #[trigger] item_id(next[i]) != Some(trim(fid))
            &&& forall|i: int| 0 <= i < next.len() ==> items.contains(#[trigger] next[i])
            &&& next == items.filter(|v: JsonV| item_id(v) != Some(trim(fid)))
        }),
{
    lemma_without_id_len(items, trim(fid));
    lemma_without_id_filter(items, trim(fid));
    let next = without_id(items, trim(fid));
    assert forall|i: int| 0 <= i < next.len() implies #[trigger] item_id(next[i]) != Some(trim(fid)) && items.contains(next[i]) by {
        let p = |v: JsonV| item_id(v) != Some(trim(fid));
        assert(next.contains(next[i]));
        items.lemma_filter_contains_rev(p, next[i]);
        items.lemma_filter_pred(p, i);
    }
}

/// `without_id` keeps exactly the policies with another id.
proof fn lemma_without_id_filter(items: Seq<JsonV>, fid: Seq<char>)
    ensures
        without_id(items, fid) == items.filter(|v: JsonV| item_id(v) != Some(fid)),
    decreases items.len(),
{
    let p = |v: JsonV| item_id(v) != Some(fid);
    reveal(Seq::filter);
    if items.len() > 0 {
        lemma_without_id_filter(items.drop_last(), fid);
    }
}

/// Adding a policy keeps policy names unique.
pub proof fn law_add_keeps_names_unique(
    items: Seq<JsonV>,
    payload: JsonV,
    cat: Catalog,
    fresh_id: Seq<char>,
    now: Seq<char>,
    appsec: Seq<char>,
)
    requires
        names_unique(items),
        add_verdict(items, payload, cat, fresh_id, now, appsec) is Ok,
    ensures
        names_unique(add_verdict(items, payload, cat, fresh_id, now, appsec)->Ok_0.1),
{
    let (item, next, _) = add_verdict(items, payload, cat, fresh_id, now, appsec)->Ok_0;
    let f = compose_verdict(payload, None, cat, fresh_id, now)->Ok_0;
    let name = str_or_empty(JsonV::Object(f), "name"@);
    let id = str_or_empty(JsonV::Object(f), "id"@);
    reveal_strlit("id");
    reveal_strlit("name");
    assert(f[1].0 == "name"@);
    assert(f[0].0 == "id"@);
    lemma_vget_first(f, 1, "name"@);
    if name_taken(items, name, None) {
        let g = with_name(f, fallback_name(name, id));
        assert(g[0] == f[0]);
        assert(g[1].0 == "name"@);
        lemma_vget_first(g, 1, "name"@);
        assert(item_name(item) == Some(fallback_name(name, id)));
    } else {
        assert(item_name(item) == Some(name));
    }
    assert forall|i: int, j: int|
        0 <= i < next.len() && 0 <= j < next.len() && i != j && #[trigger] item_name(next[i]) is Some
            implies item_name(next[i]) != #[trigger] item_name(next[j]) by {
        if i == items.len() as int {
            assert(next[j] == items[j]);
        } else if j == items.len() as int {
            assert(next[i] == items[i]);
        } else {
            assert(next[i] == items[i] && next[j] == items[j]);
        }
    }
}

} // verus!

verus! {

/// Where some policy among the first `n` has id `fid`, a first such policy exists; so
/// `index_of_id` finds the first policy with that id whenever there is one.
pub proof fn lemma_index_of_id(items: Seq<JsonV>, fid: Seq<char>, n: int)
    requires
        0 <= n <= items.len(),
    ensures
        (exists|i: int| 0 <= i < n && #[trigger] item_id(items[i]) == Some(fid)) ==> exists|i: int|
            0 <= i < n && #[trigger] item_id(items[i]) == Some(fid) && forall|j: int|
                0 <= j < i ==> #[trigger] item_id(items[j]) != Some(fid),
        n == items.len() ==> (index_of_id(items, fid) matches Some(i) ==> 0 <= i < items.len() && item_id(items[i]) == Some(fid)),
    decreases n,
{
    if n > 0 {
        lemma_index_of_id(items, fid, n - 1);
        if !(exists|i: int| 0 <= i < n - 1 && #[trigger] item_id(items[i]) == Some(fid)) && item_id(items[n - 1]) == Some(fid) {
            assert(forall|j: int| 0 <= j < n - 1 ==> #[trigger] item_id(items[j]) != Some(fid));
        }
    }
}

} // verus!

verus! {

/// Whether a file (by its relative path) is a YAML rule: its name has the `.yaml` extension.
pub open spec fn is_yaml_file(rel: Seq<char>) -> bool {
    let name = crate::server::last_segment(rel);
    name.len() > 5 && crate::text::has_suffix(name, ".yaml"@)
}

/// `s` with each backslash turned into a slash.
pub open spec fn slashed(s: Seq<char>) -> Seq<char> {
    Seq::new(s.len(), |i: int| if s[i] == '\\' { '/' } else { s[i] })
}

/// The hub name of a rule file: its relative path without `.yaml`, under `crowdsecurity/`
/// when it sits at the top of the hub directory.
pub open spec fn hub_name(rel: Seq<char>) -> Seq<char> {
    let r = slashed(rel);
    let s = r.take(r.len() - 5);
    if crate::text::has_char(s, '/') {
        s
    } else {
        "crowdsecurity/"@ + s
    }
}

/// The hub names of the first 250 rule files among `rels`, in order.
pub open spec fn hub_names(rels: Seq<Seq<char>>) -> Seq<Seq<char>>
    decreases rels.len(),
{
    if rels.len() == 0 {
        Seq::empty()
    } else {
        let p = hub_names(rels.drop_last());
        if is_yaml_file(rels.last()) && p.len() < 250 {
            p.push(hub_name(rels.last()))
        } else {
            p
        }
    }
}

/// The installed AppSec rules, named as the hub names them, from the relative paths of the
/// files under the hub's `appsec-rules` directory (in the order the walk met them); at most
/// 250 are listed.
pub fn hub_appsec_rules(rels: &Vec<String>) -> (r: Vec<String>)
    ensures
        crate::findings::sviews(r@) == hub_names(crate::findings::sviews(rels@)),
        r@.len() <= 250,
{
    let ghost all = crate::findings::sviews(rels@);
    let mut out: Vec<String> = Vec::new();
    let mut i: usize = 0;
    assert(all.take(0) =~= Seq::<Seq<char>>::empty());
    while i < rels.len()
        invariant
            i <= rels@.len() == all.len(),
            all == crate::findings::sviews(rels@),
            crate::findings::sviews(out@) == hub_names(all.take(i as int)),
            out@.len() <= 250,
        decreases rels.len() - i,
    {
        assert(all.take(i + 1).drop_last() =~= all.take(i as int));
        assert(all.take(i + 1).last() == rels@[i as int]@);
        let c = chars_of(rels[i].as_str());
        let name = crate::server::last_segment_pub(&c);
        if name.len() > 5 && crate::text::ends_with_chars(&name, &chars_of(".yaml")) && out.len() < 250 {
            let mut s: Vec<char> = Vec::new();
            let mut k: usize = 0;
            while k < c.len()
                invariant
                    k <= c@.len(),
                    s@ == slashed(c@).take(k as int),
                decreases c.len() - k,
            {
                s.push(if c[k] == '\\' { '/' } else { c[k] });
                assert(s@ =~= slashed(c@).take(k + 1));
                k = k + 1;
            }
            assert(s@ =~= slashed(c@));
            proof {
                reveal_strlit(".yaml");
            }
            let stem = slice_chars(&s, 0, s.len() - 5);
            let full = if crate::text::has_char_exec(&stem, '/') {
                stem
            } else {
                let mut t = chars_of("crowdsecurity/");
                crate::text::append_chars(&mut t, &stem);
                t
            };
            let ghost o = out@;
            out.push(string_of(&full));
            assert(crate::findings::sviews(out@) =~= crate::findings::sviews(o).push(hub_name(c@)));
        }
        i = i + 1;
    }
    assert(all.take(rels.len() as int) =~= all);
    out
}

} // verus!

verus! {

/// An acquisition file that lists the in-band CRS collection.
pub const CRS_INBAND_PATTERN: &'static str = "(?m)^\\s*-\\s*crowdsecurity/crs-inband\\b";

/// The line after which the site filters are listed in the AppSec acquisition.
pub const CRS_LINE: &'static str = "  - crowdsecurity/crs\n";

/// `s` with its first occurrence of `n` (at `find_str`) replaced by `w`.
pub open spec fn replace_first(s: Seq<char>, n: Seq<char>, w: Seq<char>) -> Seq<char> {
    let i = crate::text::find_str(s, n);
    s.take(i) + w + s.skip(i + n.len())
}

/// What listing AppSec config `name` in the acquisition text `text` gives: an error when the
/// acquisition lists in-band CRS or is not the expected one, `None` when `name` is already
/// listed, else the new text with `name` right after the CRS collection (or appended).
pub open spec fn acquis_verdict(text: Seq<char>, name: Seq<char>) -> Result<Option<Seq<char>>, Seq<char>> {
    if regex_match(CRS_INBAND_PATTERN@, text) {
        Err("acquis lists crs-inband \u{2014} refused"@)
    } else if contains(text, name) {
        Ok(None)
    } else if !contains(text, "crowdsecurity/crs"@) {
        Err("unexpected AppSec acquis"@)
    } else if contains(text, CRS_LINE@) {
        Ok(Some(replace_first(text, CRS_LINE@, CRS_LINE@ + "  - "@ + name + "\n"@)))
    } else {
        Ok(Some(crate::text::trim_end(text) + "\n  - "@ + name + "\n"@))
    }
}

/// Works out the AppSec acquisition text that lists the site-filter config `name`.
pub fn acquis_update(text: &str, name: &str) -> (r: Result<Option<String>, String>)
    ensures
        match acquis_verdict(text@, name@) {
            Ok(Some(t)) => r matches Ok(Some(s)) && s@ == t,
            Ok(None) => r matches Ok(None),
            Err(m) => r matches Err(e) && e@ == m,
        },
{
    if re_is_match(CRS_INBAND_PATTERN, text) {
        return Err(String::from_str("acquis lists crs-inband \u{2014} refused"));
    }
    let t = chars_of(text);
    if contains_chars(&t, &chars_of(name)) {
        return Ok(None);
    }
    if !contains_chars(&t, &chars_of("crowdsecurity/crs")) {
        return Err(String::from_str("unexpected AppSec acquis"));
    }
    let needle = chars_of(CRS_LINE);
    match crate::text::find_str_exec(&t, &needle) {
        Some(i) => Ok(Some(insert_after(&t, &needle, i, name))),
        None => Ok(Some(append_line(&t, name))),
    }
}

/// `t` with `needle` (found at `i`) followed by a list line for `name`.
#[verifier::rlimit(40)]
fn insert_after(t: &Vec<char>, needle: &Vec<char>, i: usize, name: &str) -> (r: String)
    requires
        crate::text::find_str(t@, needle@) == i,
        crate::text::occurs_at(t@, needle@, i as int),
    ensures
        r@ == replace_first(t@, needle@, needle@ + "  - "@ + name@ + "\n"@),
{
    let mut w = needle.clone();
    append_str(&mut w, "  - ");
    append_str(&mut w, name);
    append_str(&mut w, "\n");
    let ghost wv = w@;
    assert(wv == needle@ + "  - "@ + name@ + "\n"@);
    let head = slice_chars(t, 0, i);
    assert(head@ =~= t@.take(i as int));
    let nl = needle.len();
    let tl = t.len();
    assert(i + nl <= tl);
    let tail = slice_chars(t, i + nl, tl);
    assert(tail@ =~= t@.skip(i + needle@.len()));
    let mut out = head;
    append_chars(&mut out, &w);
    append_chars(&mut out, &tail);
    assert(out@ == t@.take(i as int) + wv + t@.skip(i + needle@.len()));
    string_of(&out)
}

/// `t` without trailing whitespace, then a list line for `name`.
fn append_line(t: &Vec<char>, name: &str) -> (r: String)
    ensures
        r@ == crate::text::trim_end(t@) + "\n  - "@ + name@ + "\n"@,
{
    let mut out = crate::text::trim_end_exec(t);
    append_str(&mut out, "\n  - ");
    append_str(&mut out, name);
    append_str(&mut out, "\n");
    string_of(&out)
}

/// The id of the Nomad allocation to run `cscli` in: among the running allocations, the
/// first with the highest `ModifyIndex`.
pub open spec fn running_alloc_spec(allocs: Seq<JsonV>) -> Option<JsonV>
    decreases allocs.len(),
{
    if allocs.len() == 0 {
        None
    } else {
        let p = running_alloc_spec(allocs.drop_last());
        let a = allocs.last();
        if a is Object && jstr(jget(a, "ClientStatus"@)) == Some("running"@) {
            match p {
                Some(b) => if modify_index(a) > modify_index(b) { Some(a) } else { p },
                None => Some(a),
            }
        } else {
            p
        }
    }
}

/// An allocation's `ModifyIndex` (0 when absent).
pub open spec fn modify_index(a: JsonV) -> int {
    match ji64(jget(a, "ModifyIndex"@)) {
        Some(i) => i,
        None => 0,
    }
}

/// Picks the CrowdSec allocation from `nomad job allocs -json` output: its `ID`, or the
/// error when none is running.
pub fn running_alloc(data: &Json) -> (r: Result<String, String>)
    ensures
        match data@ {
            JsonV::Array(allocs) => match running_alloc_spec(allocs) {
                Some(a) => r matches Ok(s) && s@ == str_or_empty(a, "ID"@),
                None => r matches Err(e) && e@ == "no running CrowdSec Nomad alloc"@,
            },
            _ => r matches Err(e) && e@ == "no running CrowdSec Nomad alloc"@,
        },
{
    let allocs = match data {
        Json::Array(xs) => {
            proof {
                lemma_array_view(*data);
            }
            xs
        },
        _ => {
            return Err(String::from_str("no running CrowdSec Nomad alloc"));
        },
    };
    let ghost av = data@->Array_0;
    let mut best: Option<usize> = None;
    let mut best_index: i64 = 0;
    let mut i: usize = 0;
    assert(av.take(0) =~= Seq::<JsonV>::empty());
    while i < allocs.len()
        invariant
            i <= allocs@.len() == av.len(),
            av == data@->Array_0,
            forall|k: int| 0 <= k < allocs@.len() ==> #[trigger] av[k] == allocs@[k]@,
            match best {
                Some(b) => b < i && running_alloc_spec(av.take(i as int)) == Some(av[b as int])
                    && best_index as int == modify_index(av[b as int]),
                None => running_alloc_spec(av.take(i as int)) is None,
            },
        decreases allocs.len() - i,
    {
        assert(av.take(i + 1).drop_last() =~= av.take(i as int));
        assert(av.take(i + 1).last() == av[i as int]);
        let a = &allocs[i];
        let is_obj = match a {
            Json::Object(_) => true,
            _ => false,
        };
        if is_obj && field_is(a, "ClientStatus", &chars_of("running")) {
            let mi = match get_i64(a, "ModifyIndex") {
                Some(v) => v,
                None => 0,
            };
            match best {
                Some(_) => {
                    if mi > best_index {
                        best = Some(i);
                        best_index = mi;
                    }
                },
                None => {
                    best = Some(i);
                    best_index = mi;
                },
            }
        }
        i = i + 1;
    }
    assert(av.take(allocs.len() as int) =~= av);
    match best {
        Some(b) => Ok(get_str_or_empty(&allocs[b], "ID")),
        None => Err(String::from_str("no running CrowdSec Nomad alloc")),
    }
}

/// What an allowlist addition asks: the validated network and the reason (its first 80
/// characters, `cso-console` when empty), refused when the reason names a forbidden setting.
pub open spec fn allowlist_verdict(cidr: Seq<char>, reason: Seq<char>) -> Result<(Seq<char>, Seq<char>), Seq<char>> {
    match cidr_verdict(cidr) {
        Err(m) => Err(m),
        Ok(n) => {
            let r0 = take_at_most(reason, 80);
            let r = if r0.len() == 0 { "cso-console"@ } else { r0 };
            match forbidden_verdict(seq![r]) {
                Err(m) => Err(m),
                Ok(()) => Ok((n, r)),
            }
        },
    }
}

/// Validates an allowlist addition: the network and the reason to record.
pub fn allowlist_request(cidr: &str, reason: &str) -> (r: Result<(String, String), String>)
    ensures
        match allowlist_verdict(cidr@, reason@) {
            Ok((n, why)) => r matches Ok((a, b)) && a@ == n && b@ == why,
            Err(m) => r matches Err(e) && e@ == m,
        },
{
    let n = match validate_cidr(cidr) {
        Ok(n) => n,
        Err(e) => {
            return Err(e);
        },
    };
    let r0 = take_chars(&chars_of(reason), 80);
    let r = if r0.len() == 0 {
        String::from_str("cso-console")
    } else {
        string_of(&r0)
    };
    let parts: [&str; 1] = [r.as_str()];
    proof {
        assert(views(parts@) =~= seq![r@]);
    }
    match reject_forbidden(&parts) {
        Err(e) => Err(e),
        Ok(()) => Ok((n, r)),
    }
}

/// The policy store as read from its file: version 1 and the file's `items` (none when the
/// file is missing, unreadable or has no item list).
pub open spec fn filter_store_spec(data: Option<JsonV>) -> JsonV {
    let items = match data {
        Some(d) => match jget(d, "items"@) {
            Some(JsonV::Array(xs)) => xs,
            _ => Seq::empty(),
        },
        None => Seq::empty(),
    };
    JsonV::Object(seq![("version"@, JsonV::Int(1)), ("items"@, JsonV::Array(items))])
}

/// The policy store from the parsed store file (`None` when there is none or it does not parse).
pub fn load_filters(data: Option<&Json>) -> (r: Json)
    ensures
        r@ == filter_store_spec(
            match data {
                Some(d) => Some(d@),
                None => None,
            },
        ),
{
    let items: Vec<Json> = match data {
        Some(d) => {
            let v = get(d, "items");
            match v {
                Some(Json::Array(xs)) => {
                    proof {
                        lemma_array_view(*v->Some_0);
                    }
                    let c = clone_all(xs);
                    assert(jviews(c@) =~= v->Some_0@->Array_0);
                    c
                },
                _ => {
                    let e: Vec<Json> = Vec::new();
                    assert(jviews(e@) =~= Seq::<JsonV>::empty());
                    e
                },
            }
        },
        None => {
            let e: Vec<Json> = Vec::new();
            assert(jviews(e@) =~= Seq::<JsonV>::empty());
            e
        },
    };
    let mut f: Vec<(String, Json)> = Vec::new();
    f.push((String::from_str("version"), Json::Int(1)));
    f.push((String::from_str("items"), crate::findings::array_of(items)));
    let o = crate::findings::object_of(f);
    assert(fview(f@) =~= filter_store_spec(
        match data {
            Some(d) => Some(d@),
            None => None,
        },
    )->Object_0);
    o
}

} // verus!

verus! {

/// Whether a Traefik router serves `host`: its rule names `Host(`host`)`.
pub open spec fn serves_host(r: JsonV, host: Seq<char>) -> bool {
    contains(str_or_empty(r, "rule"@), "Host(`"@ + host + "`)"@)
}

/// The routers serving `host`, in order.
pub open spec fn host_routers(routers: Seq<JsonV>, host: Seq<char>) -> Seq<JsonV>
    decreases routers.len(),
{
    if routers.len() == 0 {
        Seq::empty()
    } else {
        let p = host_routers(routers.drop_last(), host);
        if serves_host(routers.last(), host) {
            p.push(routers.last())
        } else {
            p
        }
    }
}

/// The `name` values of routers that have one.
pub open spec fn router_names(rs: Seq<JsonV>) -> Seq<JsonV>
    decreases rs.len(),
{
    if rs.len() == 0 {
        Seq::empty()
    } else {
        let p = router_names(rs.drop_last());
        match jget(rs.last(), "name"@) {
            Some(v) => p.push(v),
            None => p,
        }
    }
}

/// The middleware names (text items of `middlewares` arrays) of routers, in order.
pub open spec fn router_middlewares(rs: Seq<JsonV>) -> Seq<Seq<char>>
    decreases rs.len(),
{
    if rs.len() == 0 {
        Seq::empty()
    } else {
        router_middlewares(rs.drop_last()) + match jget(rs.last(), "middlewares"@) {
            Some(JsonV::Array(xs)) => crate::findings::strs_of(xs),
            _ => Seq::empty(),
        }
    }
}

/// Whether a middleware is the CrowdSec bouncer (or the chain that holds it).
pub open spec fn is_bouncer(m: Seq<char>) -> bool {
    contains(m, "crowdsec"@) || contains(m, "security-chain"@)
}

/// What Traefik shows of a host served by routers `rs`: their names, their middlewares
/// (sorted, each once) and whether one of those is the bouncer.
pub open spec fn traefik_info(rs: Seq<JsonV>) -> JsonV {
    let ms = crate::findings::sort_spec(crate::findings::distinct(router_middlewares(rs)));
    JsonV::Object(
        seq![
            ("routers"@, JsonV::Array(router_names(rs))),
            ("middlewares"@, crate::correlate::str_array(ms)),
            ("bouncer"@, JsonV::Bool(exists|k: int| 0 <= k < ms.len() && is_bouncer(#[trigger] ms[k]))),
        ],
    )
}

/// The Traefik view of each catalog host that some router serves.
pub open spec fn traefik_map_spec(hosts: Seq<Seq<char>>, routers: Seq<JsonV>) -> Seq<(Seq<char>, JsonV)>
    decreases hosts.len(),
{
    if hosts.len() == 0 {
        Seq::empty()
    } else {
        let p = traefik_map_spec(hosts.drop_last(), routers);
        let rs = host_routers(routers, hosts.last());
        if rs.len() > 0 {
            p.push((hosts.last(), traefik_info(rs)))
        } else {
            p
        }
    }
}

/// The routers serving `host`.
fn host_routers_exec(routers: &Vec<Json>, host: &str) -> (r: Vec<Json>)
    ensures
        jviews(r@) == host_routers(jviews(routers@), host@),
{
    let mut needle = chars_of("Host(`");
    append_str(&mut needle, host);
    append_str(&mut needle, "`)");
    let ghost all = jviews(routers@);
    let mut out: Vec<Json> = Vec::new();
    let mut i: usize = 0;
    assert(all.take(0) =~= Seq::<JsonV>::empty());
    while i < routers.len()
        invariant
            i <= routers@.len() == all.len(),
            all == jviews(routers@),
            needle@ == "Host(`"@ + host@ + "`)"@,
            jviews(out@) == host_routers(all.take(i as int), host@),
        decreases routers.len() - i,
    {
        assert(all.take(i + 1).drop_last() =~= all.take(i as int));
        assert(all.take(i + 1).last() == routers@[i as int]@);
        let rule = chars_of(get_str_or_empty(&routers[i], "rule").as_str());
        if contains_chars(&rule, &needle) {
            let ghost o = out@;
            out.push(clone_json(&routers[i]));
            assert(jviews(out@) =~= jviews(o).push(routers@[i as int]@));
        }
        i = i + 1;
    }
    assert(all.take(routers.len() as int) =~= all);
    out
}

/// The Traefik view of a host served by `rs`.
fn traefik_info_exec(rs: &Vec<Json>) -> (r: Json)
    ensures
        r@ == traefik_info(jviews(rs@)),
{
    let ghost all = jviews(rs@);
    let mut names: Vec<Json> = Vec::new();
    let mut mws: Vec<Vec<char>> = Vec::new();
    let mut i: usize = 0;
    assert(all.take(0) =~= Seq::<JsonV>::empty());
    while i < rs.len()
        invariant
            i <= rs@.len() == all.len(),
            all == jviews(rs@),
            jviews(names@) == router_names(all.take(i as int)),
            crate::correlate::vviews(mws@) == router_middlewares(all.take(i as int)),
        decreases rs.len() - i,
    {
        assert(all.take(i + 1).drop_last() =~= all.take(i as int));
        assert(all.take(i + 1).last() == rs@[i as int]@);
        match get(&rs[i], "name") {
            Some(v) => {
                let ghost o = names@;
                names.push(clone_json(v));
                assert(jviews(names@) =~= jviews(o).push(v@));
            },
            None => {},
        }
        let mv = get(&rs[i], "middlewares");
        let items = crate::findings::str_items_exec(mv);
        let ghost o2 = crate::correlate::vviews(mws@);
        let mut k: usize = 0;
        while k < items.len()
            invariant
                k <= items@.len(),
                crate::correlate::vviews(mws@) == o2 + crate::findings::sviews(items@).take(k as int),
            decreases items.len() - k,
        {
            let ghost b = mws@;
            mws.push(chars_of(items[k].as_str()));
            assert(crate::correlate::vviews(mws@) =~= crate::correlate::vviews(b).push(items@[k as int]@));
            assert(crate::correlate::vviews(mws@) =~= o2 + crate::findings::sviews(items@).take(k + 1));
            k = k + 1;
        }
        assert(crate::findings::sviews(items@).take(items.len() as int) =~= crate::findings::sviews(items@));
        proof {
            match mv {
                Some(x) => match x@ {
                    JsonV::Array(_) => {},
                    _ => {
                        assert(crate::findings::sviews(items@) =~= Seq::<Seq<char>>::empty());
                    },
                },
                None => {
                    assert(crate::findings::sviews(items@) =~= Seq::<Seq<char>>::empty());
                },
            }
        }
        i = i + 1;
    }
    assert(all.take(rs.len() as int) =~= all);
    let uniq = distinct_texts(&mws);
    let sorted = crate::findings::sort_texts(uniq);
    let ghost ms = crate::correlate::vviews(sorted@);
    let mut bouncer = false;
    let mut j: usize = 0;
    while j < sorted.len()
        invariant
            j <= sorted@.len(),
            ms == crate::correlate::vviews(sorted@),
            bouncer == exists|k: int| 0 <= k < j && is_bouncer(#[trigger] ms[k]),
        decreases sorted.len() - j,
    {
        if contains_chars(&sorted[j], &chars_of("crowdsec")) || contains_chars(&sorted[j], &chars_of("security-chain")) {
            assert(is_bouncer(ms[j as int]));
            bouncer = true;
        }
        j = j + 1;
    }
    let mut f: Vec<(String, Json)> = Vec::new();
    f.push((String::from_str("routers"), crate::findings::array_of(names)));
    f.push((String::from_str("middlewares"), crate::correlate::str_array_pub(&sorted)));
    f.push((String::from_str("bouncer"), Json::Bool(bouncer)));
    let o = crate::findings::object_of(f);
    assert(fview(f@) =~= traefik_info(jviews(rs@))->Object_0);
    o
}

/// The items of `v`, each once, in order of first appearance.
pub(crate) fn distinct_texts(v: &Vec<Vec<char>>) -> (r: Vec<Vec<char>>)
    ensures
        crate::correlate::vviews(r@) == crate::findings::distinct(crate::correlate::vviews(v@)),
{
    let ghost all = crate::correlate::vviews(v@);
    let mut out: Vec<Vec<char>> = Vec::new();
    let mut i: usize = 0;
    assert(all.take(0) =~= Seq::<Seq<char>>::empty());
    while i < v.len()
        invariant
            i <= v@.len() == all.len(),
            all == crate::correlate::vviews(v@),
            crate::correlate::vviews(out@) == crate::findings::distinct(all.take(i as int)),
        decreases v.len() - i,
    {
        assert(all.take(i + 1).drop_last() =~= all.take(i as int));
        assert(all.take(i + 1).last() == v@[i as int]@);
        if !crate::findings::has_chars(&out, &v[i]) {
            let ghost o = out@;
            out.push(v[i].clone());
            assert(crate::correlate::vviews(out@) =~= crate::correlate::vviews(o).push(v@[i as int]@));
        }
        i = i + 1;
    }
    assert(all.take(v.len() as int) =~= all);
    out
}

/// What Traefik shows of each catalog host: for every host some router serves, the routers'
/// names, their middlewares (sorted, each once) and whether the CrowdSec bouncer is among them.
pub fn traefik_site_map(hosts: &Vec<String>, routers: &Vec<Json>) -> (r: Vec<(String, Json)>)
    ensures
        fview(r@) == traefik_map_spec(crate::findings::sviews(hosts@), jviews(routers@)),
{
    let ghost hv = crate::findings::sviews(hosts@);
    let mut out: Vec<(String, Json)> = Vec::new();
    let mut i: usize = 0;
    assert(hv.take(0) =~= Seq::<Seq<char>>::empty());
    assert(fview(out@) =~= Seq::<(Seq<char>, JsonV)>::empty());
    while i < hosts.len()
        invariant
            i <= hosts@.len() == hv.len(),
            hv == crate::findings::sviews(hosts@),
            fview(out@) == traefik_map_spec(hv.take(i as int), jviews(routers@)),
        decreases hosts.len() - i,
    {
        assert(hv.take(i + 1).drop_last() =~= hv.take(i as int));
        assert(hv.take(i + 1).last() == hosts@[i as int]@);
        let rs = host_routers_exec(routers, hosts[i].as_str());
        if rs.len() > 0 {
            let info = traefik_info_exec(&rs);
            let ghost o = out@;
            out.push((hosts[i].clone(), info));
            assert(fview(out@) =~= fview(o).push((hosts@[i as int]@, traefik_info(jviews(rs@)))));
        }
        i = i + 1;
    }
    assert(hv.take(hosts.len() as int) =~= hv);
    out
}

} // verus!

verus! {

/// The policy items of a store that target `host`.
pub open spec fn host_items(items: Seq<JsonV>, host: Seq<char>) -> Seq<JsonV>
    decreases items.len(),
{
    if items.len() == 0 {
        Seq::empty()
    } else {
        let p = host_items(items.drop_last(), host);
        if field_eq_spec(items.last(), "host"@, host) {
            p.push(items.last())
        } else {
            p
        }
    }
}

/// Whether field `k` of `v` is the text `s`.
pub open spec fn field_eq_spec(v: JsonV, k: Seq<char>, s: Seq<char>) -> bool {
    jstr(jget(v, k)) == Some(s)
}

/// The row of a site on the sites page: its metadata with its host, its Traefik view
/// (empty when no router serves it) and the policies that target it.
pub open spec fn site_row(h: Seq<char>, meta: JsonV, traefik: Seq<(Seq<char>, JsonV)>, items: Seq<JsonV>) -> JsonV {
    let base = match meta {
        JsonV::Object(f) => f,
        _ => seq![("kind"@, JsonV::Str("web"@)), ("in_scope"@, JsonV::Bool(true))],
    };
    let t = match crate::json::vget(traefik, h) {
        Some(v) => v,
        None => JsonV::Object(Seq::empty()),
    };
    JsonV::Object(set_entry(set_entry(set_entry(base, "host"@, JsonV::Str(h)), "traefik"@, t), "filters"@, JsonV::Array(host_items(items, h))))
}

/// The mutations the console may perform.
pub open spec fn mutations() -> Seq<Seq<char>> {
    seq![
        "unban-ip"@,
        "ban-ip"@,
        "allowlist-add"@,
        "allowlist-remove"@,
        "policy-create"@,
        "policy-update"@,
        "policy-delete"@,
        "site-filter-allow_match"@,
        "site-filter-skip_rule"@,
        "site-filter-bypass_host"@,
    ]
}

/// The sites page: a row per catalog site, the out-of-scope hosts, the policy actions and
/// the engine policy the console keeps.
pub open spec fn sites_payload_spec(
    sites: Seq<(Seq<char>, JsonV)>,
    oos: Seq<(Seq<char>, JsonV)>,
    traefik: Seq<(Seq<char>, JsonV)>,
    store: JsonV,
) -> JsonV {
    let items = match jget(store, "items"@) {
        Some(JsonV::Array(xs)) => xs,
        _ => Seq::empty(),
    };
    JsonV::Object(
        seq![
            ("ok"@, JsonV::Bool(true)),
            ("sites"@, JsonV::Array(sites.map_values(|e: (Seq<char>, JsonV)| site_row(e.0, e.1, traefik, items)))),
            ("out_of_scope"@, JsonV::Object(oos)),
            ("actions"@, crate::correlate::str_array(seq!["allow_match"@, "skip_rule"@, "bypass_host"@])),
            ("policy"@, JsonV::Object(
                seq![
                    ("crs_inband"@, JsonV::Bool(false)),
                    ("fail_closed"@, JsonV::Bool(true)),
                    ("include_large_uploads"@, JsonV::Bool(false)),
                    ("mutations"@, crate::correlate::str_array(mutations())),
                ],
            )),
        ],
    )
}

/// The items of a store.
fn store_items(store: &Json) -> (r: Vec<Json>)
    ensures
        jviews(r@) == match jget(store@, "items"@) {
            Some(JsonV::Array(xs)) => xs,
            _ => Seq::<JsonV>::empty(),
        },
{
    let v = get(store, "items");
    match v {
        Some(Json::Array(xs)) => {
            proof {
                lemma_array_view(*v->Some_0);
            }
            let c = clone_all(xs);
            assert(jviews(c@) =~= v->Some_0@->Array_0);
            c
        },
        _ => {
            let e: Vec<Json> = Vec::new();
            assert(jviews(e@) =~= Seq::<JsonV>::empty());
            e
        },
    }
}

/// The row of one site.
fn site_row_exec(h: &String, meta: &Json, traefik: &Vec<(String, Json)>, items: &Vec<Json>) -> (r: Json)
    ensures
        r@ == site_row(h@, meta@, fview(traefik@), jviews(items@)),
{
    let mut f: Vec<(String, Json)> = match meta {
        Json::Object(m) => {
            proof {
                lemma_object_fview(*meta);
            }
            crate::json::clone_fields(m)
        },
        _ => {
            let mut d: Vec<(String, Json)> = Vec::new();
            d.push((String::from_str("kind"), Json::Str(String::from_str("web"))));
            d.push((String::from_str("in_scope"), Json::Bool(true)));
            assert(fview(d@) =~= seq![("kind"@, JsonV::Str("web"@)), ("in_scope"@, JsonV::Bool(true))]);
            d
        },
    };
    obj_set(&mut f, "host", Json::Str(h.clone()));
    let t = match find_entry(traefik, h.as_str()) {
        Some(v) => v,
        None => {
            let e: Vec<(String, Json)> = Vec::new();
            assert(fview(e@) =~= Seq::<(Seq<char>, JsonV)>::empty());
            crate::findings::object_of(e)
        },
    };
    obj_set(&mut f, "traefik", t);
    let ghost all = jviews(items@);
    let mut mine: Vec<Json> = Vec::new();
    let mut i: usize = 0;
    assert(all.take(0) =~= Seq::<JsonV>::empty());
    let hc = chars_of(h.as_str());
    while i < items.len()
        invariant
            i <= items@.len() == all.len(),
            all == jviews(items@),
            hc@ == h@,
            jviews(mine@) == host_items(all.take(i as int), h@),
        decreases items.len() - i,
    {
        assert(all.take(i + 1).drop_last() =~= all.take(i as int));
        assert(all.take(i + 1).last() == items@[i as int]@);
        if field_is(&items[i], "host", &hc) {
            let ghost o = mine@;
            mine.push(clone_json(&items[i]));
            assert(jviews(mine@) =~= jviews(o).push(items@[i as int]@));
        }
        i = i + 1;
    }
    assert(all.take(items.len() as int) =~= all);
    obj_set(&mut f, "filters", crate::findings::array_of(mine));
    crate::findings::object_of(f)
}

/// The value of the first entry with key `k`.
fn find_entry(f: &Vec<(String, Json)>, k: &str) -> (r: Option<Json>)
    ensures
        match r {
            Some(v) => crate::json::vget(fview(f@), k@) == Some(v@),
            None => crate::json::vget(fview(f@), k@) is None,
        },
{
    let o = Json::Object(crate::json::clone_fields(f));
    proof {
        lemma_object_fview(o);
    }
    match get(&o, k) {
        Some(v) => Some(clone_json(v)),
        None => None,
    }
}

/// The sites page of the console, from the catalog, the Traefik view of its hosts and the
/// policy store.
pub fn sites_payload(cat: &Catalog, traefik: &Vec<(String, Json)>, store: &Json) -> (r: Json)
    ensures
        r@ == sites_payload_spec(fview(cat.sites@), fview(cat.out_of_scope@), fview(traefik@), store@),
{
    let items = store_items(store);
    let ghost sv = fview(cat.sites@);
    let mut rows: Vec<Json> = Vec::new();
    let mut i: usize = 0;
    while i < cat.sites.len()
        invariant
            i <= cat.sites@.len() == sv.len(),
            sv == fview(cat.sites@),
            rows@.len() == i,
            forall|k: int| 0 <= k < i ==> #[trigger] rows@[k]@ == site_row(sv[k].0, sv[k].1, fview(traefik@), jviews(items@)),
        decreases cat.sites.len() - i,
    {
        rows.push(site_row_exec(&cat.sites[i].0, &cat.sites[i].1, traefik, &items));
        i = i + 1;
    }
    assert(jviews(rows@) =~= sv.map_values(|e: (Seq<char>, JsonV)| site_row(e.0, e.1, fview(traefik@), jviews(items@))));
    let acts: Vec<Vec<char>> = vec![chars_of("allow_match"), chars_of("skip_rule"), chars_of("bypass_host")];
    assert(crate::correlate::vviews(acts@) =~= seq!["allow_match"@, "skip_rule"@, "bypass_host"@]);
    let muts: Vec<Vec<char>> = vec![
        chars_of("unban-ip"),
        chars_of("ban-ip"),
        chars_of("allowlist-add"),
        chars_of("allowlist-remove"),
        chars_of("policy-create"),
        chars_of("policy-update"),
        chars_of("policy-delete"),
        chars_of("site-filter-allow_match"),
        chars_of("site-filter-skip_rule"),
        chars_of("site-filter-bypass_host"),
    ];
    assert(crate::correlate::vviews(muts@) =~= mutations());
    let mut pol: Vec<(String, Json)> = Vec::new();
    pol.push((String::from_str("crs_inband"), Json::Bool(false)));
    pol.push((String::from_str("fail_closed"), Json::Bool(true)));
    pol.push((String::from_str("include_large_uploads"), Json::Bool(false)));
    pol.push((String::from_str("mutations"), crate::correlate::str_array_pub(&muts)));
    let policy = crate::findings::object_of(pol);
    let oos = crate::findings::object_of(crate::json::clone_fields(&cat.out_of_scope));
    let mut f: Vec<(String, Json)> = Vec::new();
    f.push((String::from_str("ok"), Json::Bool(true)));
    f.push((String::from_str("sites"), crate::findings::array_of(rows)));
    f.push((String::from_str("out_of_scope"), oos));
    f.push((String::from_str("actions"), crate::correlate::str_array_pub(&acts)));
    f.push((String::from_str("policy"), policy));
    let o = crate::findings::object_of(f);
    assert(fview(pol@) =~= seq![
        ("crs_inband"@, JsonV::Bool(false)),
        ("fail_closed"@, JsonV::Bool(true)),
        ("include_large_uploads"@, JsonV::Bool(false)),
        ("mutations"@, crate::correlate::str_array(mutations())),
    ]);
    assert(fview(f@) =~= sites_payload_spec(fview(cat.sites@), fview(cat.out_of_scope@), fview(traefik@), store@)->Object_0);
    o
}

} // verus!

verus! {

/// What reading a config file gave: not a file, its bytes, or the read error's text.
pub enum FileRead {
    Absent,
    Bytes(Vec<u8>),
    Failed(String),
}

/// The integrity record of one CrowdSec config file.
pub open spec fn integrity_spec(name: Seq<char>, path: Seq<char>, read: FileRead) -> JsonV {
    match read {
        FileRead::Absent => JsonV::Object(
            seq![("name"@, JsonV::Str(name)), ("path"@, JsonV::Str(path)), ("present"@, JsonV::Bool(false))],
        ),
        FileRead::Bytes(b) => JsonV::Object(
            seq![
                ("name"@, JsonV::Str(name)),
                ("path"@, JsonV::Str(path)),
                ("present"@, JsonV::Bool(true)),
                ("bytes"@, JsonV::UInt(b@.len() as int)),
                ("sha1"@, JsonV::Str(crate::digest::sha1_hex(b@))),
            ],
        ),
        FileRead::Failed(e) => JsonV::Object(
            seq![
                ("name"@, JsonV::Str(name)),
                ("path"@, JsonV::Str(path)),
                ("present"@, JsonV::Bool(true)),
                ("error"@, JsonV::Str(crate::text::take_at_most(e@, 200))),
            ],
        ),
    }
}

/// The integrity record of one config file: absent; or present with its size and SHA-1;
/// or present with the read error (at most 200 characters).
pub fn integrity_record(name: &str, path: &str, read: &FileRead) -> (r: Json)
    ensures
        r@ == integrity_spec(name@, path@, *read),
{
    let mut f: Vec<(String, Json)> = Vec::new();
    f.push((String::from_str("name"), Json::Str(String::from_str(name))));
    f.push((String::from_str("path"), Json::Str(String::from_str(path))));
    match read {
        FileRead::Absent => {
            f.push((String::from_str("present"), Json::Bool(false)));
        },
        FileRead::Bytes(b) => {
            f.push((String::from_str("present"), Json::Bool(true)));
            f.push((String::from_str("bytes"), Json::UInt(b.len() as u64)));
            f.push((String::from_str("sha1"), Json::Str(crate::digest::sha1_hex_of(b))));
        },
        FileRead::Failed(e) => {
            f.push((String::from_str("present"), Json::Bool(true)));
            let t = crate::text::take_chars(&chars_of(e.as_str()), 200);
            f.push((String::from_str("error"), Json::Str(string_of(&t))));
        },
    }
    assert(fview(f@) =~= integrity_spec(name@, path@, *read)->Object_0);
    crate::findings::object_of(f)
}

/// The integrity report of the CrowdSec config root: its records, and a note that Traefik
/// paths are never inspected.
pub fn integrity_report(root: &str, files: Vec<Json>) -> (r: Json)
    ensures
        r@ == JsonV::Object(
            seq![
                ("ok"@, JsonV::Bool(true)),
                ("config_root"@, JsonV::Str(root@)),
                ("files"@, JsonV::Array(jviews(files@))),
                ("note"@, JsonV::Str(
                    "CrowdSec-only config hashes. Traefik static/dynamic paths are never inspected or restored from this console."@,
                )),
            ],
        ),
{
    let ghost fv = jviews(files@);
    let mut f: Vec<(String, Json)> = Vec::new();
    f.push((String::from_str("ok"), Json::Bool(true)));
    f.push((String::from_str("config_root"), Json::Str(String::from_str(root))));
    f.push((String::from_str("files"), crate::findings::array_of(files)));
    f.push((
        String::from_str("note"),
        Json::Str(
            String::from_str(
                "CrowdSec-only config hashes. Traefik static/dynamic paths are never inspected or restored from this console.",
            ),
        ),
    ));
    assert(fview(f@) =~= seq![
        ("ok"@, JsonV::Bool(true)),
        ("config_root"@, JsonV::Str(root@)),
        ("files"@, JsonV::Array(fv)),
        ("note"@, JsonV::Str(
            "CrowdSec-only config hashes. Traefik static/dynamic paths are never inspected or restored from this console."@,
        )),
    ]);
    crate::findings::object_of(f)
}

} // verus!

verus! {

/// Whether a stored policy is rendered at all: an object whose `enabled` is not `false`.
pub open spec fn policy_active(item: JsonV) -> bool {
    item is Object && crate::json::bool_or(item, "enabled"@, true)
}

/// The policies that are rendered, in order.
pub open spec fn active_only(items: Seq<JsonV>) -> Seq<JsonV>
    decreases items.len(),
{
    if items.len() == 0 {
        Seq::empty()
    } else if policy_active(items.last()) {
        active_only(items.drop_last()).push(items.last())
    } else {
        active_only(items.drop_last())
    }
}

proof fn lemma_hook_bodies_active(items: Seq<JsonV>, cat: Catalog)
    ensures
        hook_bodies(items, cat) == hook_bodies(active_only(items), cat),
    decreases items.len(),
{
    if items.len() > 0 {
        lemma_hook_bodies_active(items.drop_last(), cat);
        let x = items.last();
        if policy_active(x) {
            let a = active_only(items.drop_last());
            assert(a.push(x).drop_last() =~= a);
            assert(a.push(x).last() == x);
        }
    }
}

/// Disabled policies and entries that are not objects are neither checked nor rendered:
/// rendering the store gives the same file, or the same error, as rendering only the active
/// policies.
pub proof fn law_render_ignores_inactive(items: Seq<JsonV>, cat: Catalog, name: Seq<char>)
    ensures
        render_verdict(items, cat, name) == render_verdict(active_only(items), cat, name),
{
    lemma_hook_bodies_active(items, cat);
}

} // verus!

verus! {

/// Bans last at most 168 hours. Where the duration's digits read as `amount` and its unit
/// is `h`, it is accepted exactly when `1 <= amount <= 168`; with unit `m`, exactly when
/// `1 <= amount <= 168 * 60`. An accepted duration is answered as `amount` and `unit`; a
/// refused one whose digits read is answered "maximum duration is 168h".
pub proof fn law_duration_at_most_168h(value: Seq<char>, digits: Seq<char>, unit: Seq<char>, amount: int)
    requires
        regex_groups(DURATION_PATTERN@, trim(value)) matches Some(g) && g.len() == 3 && g[1] == Some(digits)
            && g[2] == Some(unit),
        parse_int_spec(digits, true, i64::MIN as int, i64::MAX as int) matches Ok(a) && a == amount,
    ensures
        unit == "h"@ ==> (duration_verdict(value) is Ok <==> 1 <= amount <= 168),
        unit == "m"@ ==> (duration_verdict(value) is Ok <==> 1 <= amount <= 168 * 60),
        duration_verdict(value) is Ok ==> duration_verdict(value) == Ok::<(int, Seq<char>), Seq<char>>((amount, unit)),
        !(duration_verdict(value) is Ok) ==> duration_verdict(value) == Err::<(int, Seq<char>), Seq<char>>(
            "maximum duration is 168h"@,
        ),
{
    reveal_strlit("h");
    reveal_strlit("m");
    assert("h"@ != "m"@) by {
        assert("h"@[0] != "m"@[0]);
    }
}

/// Allowlist entries are IPv4 networks with a prefix of 16 or longer. `raw` is the trimmed
/// value, with `/32` added where it has no `/`. An accepted value parsed as an IPv4 network
/// of prefix 16 or more and is answered as that network's text; a parsed IPv4 network with
/// a shorter prefix is refused as too broad; a parsed IPv6 network is refused as IPv6.
pub proof fn law_cidr_min_prefix(value: Seq<char>, raw: Seq<char>)
    requires
        raw == (if has_char(trim(value), '/') { trim(value) } else { trim(value) + "/32"@ }),
    ensures
        cidr_verdict(value) matches Ok(s) ==> (crate::netaddr::net_parse(raw) matches Some((v6, p, text)) && !v6
            && p >= 16 && s == text),
        crate::netaddr::net_parse(raw) matches Some((v6, p, _)) && !v6 && p < 16 ==> cidr_verdict(value)
            == Err::<Seq<char>, Seq<char>>("prefix too broad (minimum /16)"@),
        crate::netaddr::net_parse(raw) matches Some((v6, _, _)) && v6 ==> cidr_verdict(value) == Err::<
            Seq<char>,
            Seq<char>,
        >("IPv4 only"@),
        crate::netaddr::net_parse(raw) is None ==> cidr_verdict(value) == Err::<Seq<char>, Seq<char>>(
            "invalid CIDR"@,
        ),
{
}

/// An enabled `allow_match` policy with a valid host and path prefix allows only requests
/// for that host whose path starts with the prefix: its entry is an `on_match` entry whose
/// filter is `req.Host == "<host>" && req.URL.Path startsWith "<path>"`.
pub proof fn law_allow_match_keeps_path(item: JsonV, cat: Catalog, host: Seq<char>, path: Seq<char>)
    requires
        item is Object,
        bool_or(item, "enabled"@, true),
        host_verdict(str_or_empty(item, "host"@), cat) == Ok::<Seq<char>, Seq<char>>(host),
        str_or_empty(item, "action"@) == "allow_match"@,
        path_verdict(str_or_empty(item, "path_prefix"@)) == Ok::<Seq<char>, Seq<char>>(path),
    ensures
        policy_hook(item, cat) matches Ok(Some((pre, t))) && !pre && exists|note: Seq<char>|
            t == "  # "@ + note + "\n  - filter: |\n      "@ + (("req.Host == \""@ + host + "\""@) + (
            " && req.URL.Path startsWith \""@ + path + "\""@)) + "\n    apply:\n"@
                + "      - SetRemediation(\"allow\")\n      - CancelAlert()\n      - CancelEvent()\n"@,
{
    reveal_strlit("allow_match");
    reveal_strlit("skip_rule");
    assert("allow_match"@ != "skip_rule"@) by {
        assert("allow_match"@[0] != "skip_rule"@[0]);
    }
    let note = policy_label(item) + ": "@ + policy_reason(item);
    assert(policy_hook(item, cat) == Ok::<Option<(bool, Seq<char>)>, Seq<char>>(
        Some((false, on_match_text(note, host_filter(host) + path_filter(path)))),
    ));
}

} // verus!

verus! {

/// `y` occurs in `x + y + z`.
proof fn lemma_contains_mid(x: Seq<char>, y: Seq<char>, z: Seq<char>)
    ensures
        contains(x + y + z, y),
{
    assert((x + y + z).subrange(x.len() as int, (x.len() + y.len()) as int) =~= y);
    assert(crate::text::occurs_at(x + y + z, y, x.len() as int));
}

/// What occurs in `h` still occurs once more text follows.
proof fn lemma_contains_extend(h: Seq<char>, extra: Seq<char>, n: Seq<char>)
    requires
        contains(h, n),
    ensures
        contains(h + extra, n),
{
    let i = choose|i: int| crate::text::occurs_at(h, n, i);
    assert((h + extra).subrange(i, i + n.len()) =~= h.subrange(i, i + n.len()));
    assert(crate::text::occurs_at(h + extra, n, i));
}

/// What occurs in a part of `a` occurs in `a`.
proof fn lemma_contains_trans(a: Seq<char>, b: Seq<char>, c: Seq<char>)
    requires
        contains(a, b),
        contains(b, c),
    ensures
        contains(a, c),
{
    let i = choose|i: int| crate::text::occurs_at(a, b, i);
    let j = choose|j: int| crate::text::occurs_at(b, c, j);
    assert(a.subrange(i + j, i + j + c.len()) =~= b.subrange(j, j + c.len()));
    assert(crate::text::occurs_at(a, c, i + j));
}

/// The `on_match` body of the first `n` policies holds the `on_match` entry of each of them.
proof fn lemma_on_match_holds(items: Seq<JsonV>, cat: Catalog, n: int, i: int, t: Seq<char>)
    requires
        0 <= i < n <= items.len(),
        hook_bodies(items.take(n), cat) is Ok,
        policy_hook(items[i], cat) == Ok::<Option<(bool, Seq<char>)>, Seq<char>>(Some((false, t))),
    ensures
        contains(hook_bodies(items.take(n), cat)->Ok_0.1, t),
    decreases n,
{
    let s = items.take(n);
    assert(s.drop_last() =~= items.take(n - 1));
    assert(s.last() == items[n - 1]);
    let prev = hook_bodies(items.take(n - 1), cat);
    assert(prev is Ok);
    let on0 = prev->Ok_0.1;
    if n - 1 == i {
        assert(hook_bodies(s, cat)->Ok_0.1 == on0 + t);
        lemma_contains_mid(on0, t, Seq::empty());
        assert(on0 + t + Seq::<char>::empty() =~= on0 + t);
    } else {
        lemma_on_match_holds(items, cat, n - 1, i, t);
        match policy_hook(items[n - 1], cat) {
            Ok(Some((false, t2))) => {
                lemma_contains_extend(on0, t2, t);
            },
            _ => {},
        }
    }
}

/// The engine file keeps every allow_match path condition: when rendering succeeds, the
/// document contains, for each enabled `allow_match` policy with a valid host and path
/// prefix, the filter `req.Host == "<host>" && req.URL.Path startsWith "<path>"`.
pub proof fn law_render_keeps_allow_path(
    items: Seq<JsonV>,
    cat: Catalog,
    name: Seq<char>,
    i: int,
    host: Seq<char>,
    path: Seq<char>,
)
    requires
        0 <= i < items.len(),
        render_verdict(items, cat, name) is Ok,
        items[i] is Object,
        bool_or(items[i], "enabled"@, true),
        host_verdict(str_or_empty(items[i], "host"@), cat) == Ok::<Seq<char>, Seq<char>>(host),
        str_or_empty(items[i], "action"@) == "allow_match"@,
        path_verdict(str_or_empty(items[i], "path_prefix"@)) == Ok::<Seq<char>, Seq<char>>(path),
    ensures
        contains(
            render_verdict(items, cat, name)->Ok_0,
            "req.Host == \""@ + host + "\""@ + " && req.URL.Path startsWith \""@ + path + "\""@,
        ),
{
    law_allow_match_keeps_path(items[i], cat, host, path);
    let filt = "req.Host == \""@ + host + "\""@ + " && req.URL.Path startsWith \""@ + path + "\""@;
    let t = policy_hook(items[i], cat)->Ok_0->Some_0.1;
    let note = policy_label(items[i]) + ": "@ + policy_reason(items[i]);
    assert(t == on_match_text(note, host_filter(host) + path_filter(path)));
    let head = "  # "@ + note + "\n  - filter: |\n      "@;
    let tail = "\n    apply:\n"@ + "      - SetRemediation(\"allow\")\n      - CancelAlert()\n      - CancelEvent()\n"@;
    assert(t =~= head + filt + tail);
    lemma_contains_mid(head, filt, tail);
    assert(items.take(items.len() as int) =~= items);
    lemma_on_match_holds(items, cat, items.len() as int, i, t);
    let (pre, on) = hook_bodies(items, cat)->Ok_0;
    lemma_contains_trans(on, t, filt);
    reveal_strlit("\n    apply:\n");
    assert(t.len() > 0);
    let k = choose|k: int| crate::text::occurs_at(on, t, k);
    assert(crate::text::occurs_at(on, t, k));
    assert(on.len() > 0);
    let doc = yaml_document(name, pre, on);
    let before = yaml_banner() + "name: "@ + name + "\n"@ + (if pre.len() > 0 {
        "pre_eval:\n"@ + pre
    } else {
        Seq::empty()
    }) + "on_match:\n"@;
    assert(doc =~= before + on + Seq::<char>::empty());
    lemma_contains_mid(before, on, Seq::empty());
    lemma_contains_trans(doc, on, filt);
}

/// A value that is not a run of digits followed by one unit letter (as the duration
/// pattern captures them) is refused as an invalid duration.
pub proof fn law_duration_shape(value: Seq<char>)
    ensures
        !(regex_groups(DURATION_PATTERN@, trim(value)) matches Some(g) && g.len() == 3 && g[1] is Some
            && g[2] is Some) ==> duration_verdict(value) == Err::<(int, Seq<char>), Seq<char>>(
            "invalid duration (e.g. 4h, 30m)"@,
        ),
{
}

} // verus!
