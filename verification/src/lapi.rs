//! The logic around the CrowdSec Local API: settings, credential files, decision lists,
//! operator networks and ban requests. The HTTP exchanges themselves stay with the caller.
use vstd::prelude::*;

use crate::json::{first_str, get, jarr, jget, jstr, jviews, str_or, str_or_empty, Json, JsonV};
use crate::netaddr::{ip_parse, net_has, net_parse};
use crate::netguard::{env_int, env_int_value};
use crate::number::parse_int_spec;
use crate::text::{chars_of, lower, lower_chars, string_of, trim, trim_chars};

verus! {

/// `n` clamped to `1..=500`.
pub open spec fn fetch_cap(n: int) -> int {
    if n < 1 {
        1
    } else if n > 500 {
        500
    } else {
        n
    }
}

/// The number of alerts to ask the Local API for, always within `1..=500`: `default`
/// (clamped) when the setting is unset or not an integer, else the setting clamped.
pub fn alerts_fetch_limit(raw: &str, default: usize) -> (r: usize)
    ensures
        1 <= r <= 500,
        r as int == if trim(raw@).len() == 0 || parse_int_spec(raw@, true, i64::MIN as int, i64::MAX as int) is Err {
            fetch_cap(default as int)
        } else {
            env_int_value(raw@, 0, 1, 500)
        },
{
    let capped: usize = if default < 1 {
        1
    } else if default > 500 {
        500
    } else {
        default
    };
    let c = chars_of(raw);
    if trim_chars(&c).len() == 0 {
        return capped;
    }
    match crate::number::parse_int(&c, true, i64::MIN, i64::MAX) {
        Ok(_) => {
            let v = env_int(raw, 0, 1, 500);
            v as usize
        },
        Err(_) => capped,
    }
}

/// How many probes run in parallel: 8 when unset or not an integer, else clamped to `1..=32`.
pub fn probe_workers(raw: &str) -> (r: usize)
    ensures
        r as int == env_int_value(raw@, 8, 1, 32),
{
    env_int(raw, 8, 1, 32) as usize
}

/// A control character (Unicode category Cc).
pub open spec fn is_control(c: char) -> bool {
    ('\u{0}' <= c && c <= '\u{1f}') || ('\u{7f}' <= c && c <= '\u{9f}')
}

/// How one character is written inside the JSON login body.
pub open spec fn escape_char(c: char) -> Seq<char> {
    if c == '"' {
        seq!['\\', '"']
    } else if c == '\\' {
        seq!['\\', '\\']
    } else if c == '\n' {
        seq!['\\', 'n']
    } else if c == '\r' {
        seq!['\\', 'r']
    } else if c == '\t' {
        seq!['\\', 't']
    } else if is_control(c) {
        seq!['\\', 'u', '0', '0', crate::routes::hex_digit((c as int) / 16), crate::routes::hex_digit((c as int) % 16)]
    } else {
        seq![c]
    }
}

/// The escaped text of a JSON string body.
pub open spec fn escape_spec(s: Seq<char>) -> Seq<char>
    decreases s.len(),
{
    if s.len() == 0 {
        Seq::empty()
    } else {
        escape_spec(s.drop_last()) + escape_char(s.last())
    }
}

/// A lowercase hexadecimal digit.
fn hex_exec(n: u32) -> (r: char)
    requires
        n < 16,
    ensures
        r == crate::routes::hex_digit(n as int),
{
    let digits = ['0', '1', '2', '3', '4', '5', '6', '7', '8', '9', 'a', 'b', 'c', 'd', 'e', 'f'];
    let r = digits[n as usize];
    assert(r == crate::routes::hex_digit(n as int)) by {
        assert(digits@ == seq!['0', '1', '2', '3', '4', '5', '6', '7', '8', '9', 'a', 'b', 'c', 'd', 'e', 'f']);
    }
    r
}

/// Escapes text for a JSON string body: quote, backslash, `\n`, `\r` and `\t`, and other
/// control characters as `\u00xx`.
pub fn json_escape(s: &str) -> (r: String)
    ensures
        r@ == escape_spec(s@),
{
    let c = chars_of(s);
    let mut out: Vec<char> = Vec::new();
    let mut i: usize = 0;
    assert(c@.take(0) =~= Seq::<char>::empty());
    while i < c.len()
        invariant
            i <= c.len(),
            out@ == escape_spec(c@.take(i as int)),
        decreases c.len() - i,
    {
        let ch = c[i];
        assert(c@.take(i + 1).drop_last() =~= c@.take(i as int));
        let ghost o = out@;
        if ch == '"' {
            out.push('\\');
            out.push('"');
        } else if ch == '\\' {
            out.push('\\');
            out.push('\\');
        } else if ch == '\n' {
            out.push('\\');
            out.push('n');
        } else if ch == '\r' {
            out.push('\\');
            out.push('r');
        } else if ch == '\t' {
            out.push('\\');
            out.push('t');
        } else if ('\u{0}' <= ch && ch <= '\u{1f}') || ('\u{7f}' <= ch && ch <= '\u{9f}') {
            let n = ch as u32;
            assert(n as int == ch as int);
            {
                out.push('\\');
                out.push('u');
                out.push('0');
                out.push('0');
                out.push(hex_exec(n / 16));
                out.push(hex_exec(n % 16));
            }
        } else {
            out.push(ch);
        }
        assert(out@ =~= o + escape_char(ch));
        i = i + 1;
    }
    assert(c@.take(c.len() as int) =~= c@);
    string_of(&out)
}

/// The decisions of a Local API answer: the array itself, or an object's `new` and
/// `decisions` arrays one after the other; nothing otherwise.
pub open spec fn flatten_spec(p: JsonV) -> Seq<JsonV> {
    match p {
        JsonV::Array(a) => a,
        JsonV::Object(_) => {
            let n = match jget(p, "new"@) {
                Some(JsonV::Array(a)) => a,
                _ => Seq::empty(),
            };
            let d = match jget(p, "decisions"@) {
                Some(JsonV::Array(a)) => a,
                _ => Seq::empty(),
            };
            n + d
        },
        _ => Seq::empty(),
    }
}

/// The items of `key` when it is an array.
fn array_items(p: &Json, key: &str) -> (r: Vec<Json>)
    ensures
        jviews(r@) == match jget(p@, key@) {
            Some(JsonV::Array(a)) => a,
            _ => Seq::<JsonV>::empty(),
        },
{
    let v = get(p, key);
    match v {
        Some(Json::Array(xs)) => {
            proof {
                crate::json::lemma_array_view(*v->Some_0);
            }
            let r = crate::json::clone_all(xs);
            assert(jviews(r@) =~= v->Some_0@->Array_0);
            r
        },
        _ => {
            let r: Vec<Json> = Vec::new();
            assert(jviews(r@) =~= Seq::<JsonV>::empty());
            r
        },
    }
}

/// The decisions of a Local API answer.
pub fn flatten_decisions(payload: &Json) -> (r: Vec<Json>)
    ensures
        jviews(r@) == flatten_spec(payload@),
{
    match payload {
        Json::Array(xs) => {
            proof {
                crate::json::lemma_array_view(*payload);
            }
            let r = crate::json::clone_all(xs);
            assert(jviews(r@) =~= payload@->Array_0);
            r
        },
        Json::Object(_) => {
            let mut n = array_items(payload, "new");
            let d = array_items(payload, "decisions");
            let ghost nv = jviews(n@);
            let mut i: usize = 0;
            while i < d.len()
                invariant
                    i <= d.len(),
                    jviews(n@) == nv + jviews(d@).take(i as int),
                decreases d.len() - i,
            {
                let x = crate::json::clone_json(&d[i]);
                let ghost o = n@;
                n.push(x);
                assert(jviews(n@) =~= jviews(o).push(d@[i as int]@));
                assert(jviews(n@) =~= nv + jviews(d@).take(i + 1));
                i = i + 1;
            }
            assert(jviews(d@).take(d.len() as int) =~= jviews(d@));
            n
        },
        _ => {
            let r: Vec<Json> = Vec::new();
            assert(jviews(r@) =~= Seq::<JsonV>::empty());
            r
        },
    }
}

/// A decision made on this host: its `origin`, lowercased, is one of the local origins.
pub open spec fn local_spec(d: JsonV) -> bool {
    let o = lower(str_or_empty(d, "origin"@));
    o == "crowdsec"@ || o == "cscli"@ || o == "console"@ || o == "cscli-import"@
}

/// Whether a decision was made on this host (not pulled from the community blocklist).
pub fn is_local_decision(item: &Json) -> (r: bool)
    ensures
        r == local_spec(item@),
{
    let o = lower_chars(&chars_of(crate::json::get_str_or_empty(item, "origin").as_str()));
    crate::text::eq_chars(&o, &chars_of("crowdsec")) || crate::text::eq_chars(&o, &chars_of("cscli"))
        || crate::text::eq_chars(&o, &chars_of("console")) || crate::text::eq_chars(
        &o,
        &chars_of("cscli-import"),
    )
}

/// The local decisions among `items`, in order.
pub open spec fn locals(items: Seq<JsonV>) -> Seq<JsonV>
    decreases items.len(),
{
    if items.len() == 0 {
        Seq::empty()
    } else {
        let p = locals(items.drop_last());
        if local_spec(items.last()) {
            p.push(items.last())
        } else {
            p
        }
    }
}

/// At most the first `n` items of `s`.
pub open spec fn at_most<A>(s: Seq<A>, n: nat) -> Seq<A> {
    if s.len() <= n {
        s
    } else {
        s.take(n as int)
    }
}

/// The first `limit` local decisions of `items`, in order.
pub fn prefer_local_decisions(items: &Vec<Json>, limit: usize) -> (r: Vec<Json>)
    ensures
        jviews(r@) == at_most(locals(jviews(items@)), limit as nat),
{
    let ghost all = jviews(items@);
    let mut out: Vec<Json> = Vec::new();
    let mut i: usize = 0;
    assert(all.take(0) =~= Seq::<JsonV>::empty());
    while i < items.len() && out.len() < limit
        invariant
            i <= items@.len() == all.len(),
            all == jviews(items@),
            out@.len() <= limit,
            jviews(out@) == locals(all.take(i as int)),
        decreases items.len() - i,
    {
        assert(all.take(i + 1).drop_last() =~= all.take(i as int));
        assert(all.take(i + 1).last() == items@[i as int]@);
        if is_local_decision(&items[i]) {
            let ghost o = out@;
            out.push(crate::json::clone_json(&items[i]));
            assert(jviews(out@) =~= jviews(o).push(items@[i as int]@));
        }
        i = i + 1;
    }
    proof {
        lemma_locals_prefix(all, i as int, limit as nat);
    }
    out
}

/// The local decisions of a prefix are a prefix of the local decisions; once `n` are found
/// the rest does not matter for the first `n`.
proof fn lemma_locals_prefix(all: Seq<JsonV>, i: int, n: nat)
    requires
        0 <= i <= all.len(),
        i < all.len() ==> locals(all.take(i)).len() >= n,
        locals(all.take(i)).len() <= n,
    ensures
        locals(all.take(i)) == at_most(locals(all), n),
    decreases all.len() - i,
{
    lemma_locals_grow(all, i);
    if i == all.len() {
        assert(all.take(i) =~= all);
    } else {
        assert(locals(all.take(i)).len() == n);
        assert(locals(all) =~= locals(all.take(i)) + locals(all).skip(locals(all.take(i)).len() as int));
    }
}

/// The local decisions of a prefix are a prefix of those of the whole.
proof fn lemma_locals_grow(all: Seq<JsonV>, i: int)
    requires
        0 <= i <= all.len(),
    ensures
        locals(all.take(i)).len() <= locals(all).len(),
        locals(all).take(locals(all.take(i)).len() as int) == locals(all.take(i)),
    decreases all.len() - i,
{
    if i == all.len() {
        assert(all.take(i) =~= all);
        assert(locals(all).take(locals(all).len() as int) =~= locals(all));
    } else {
        lemma_locals_grow(all, i + 1);
        assert(all.take(i + 1).drop_last() =~= all.take(i));
        let a = locals(all.take(i));
        let b = locals(all.take(i + 1));
        assert(b.take(a.len() as int) =~= a);
        assert(locals(all).take(a.len() as int) =~= locals(all).take(b.len() as int).take(a.len() as int));
    }
}

} // verus!

verus! {

/// A quote character, single or double.
pub open spec fn is_quote(c: char) -> bool {
    c == '"' || c == '\''
}

/// `s` without leading quotes.
pub open spec fn ltrim_quotes(s: Seq<char>) -> Seq<char>
    decreases s.len(),
{
    if s.len() > 0 && is_quote(s[0]) {
        ltrim_quotes(s.drop_first())
    } else {
        s
    }
}

/// `s` without trailing quotes.
pub open spec fn rtrim_quotes(s: Seq<char>) -> Seq<char>
    decreases s.len(),
{
    if s.len() > 0 && is_quote(s.last()) {
        rtrim_quotes(s.drop_last())
    } else {
        s
    }
}

/// `s` without single or double quotes at either end.
pub open spec fn trim_quotes(s: Seq<char>) -> Seq<char> {
    rtrim_quotes(ltrim_quotes(s))
}

/// `s` without quotes at either end.
pub(crate) fn trim_quotes_exec(s: &Vec<char>) -> (r: Vec<char>)
    ensures
        r@ == trim_quotes(s@),
{
    let mut a: usize = 0;
    assert(s@.subrange(0, s@.len() as int) =~= s@);
    while a < s.len() && (s[a] == '"' || s[a] == '\'')
        invariant
            a <= s@.len(),
            ltrim_quotes(s@) == ltrim_quotes(s@.subrange(a as int, s@.len() as int)),
        decreases s.len() - a,
    {
        assert(s@.subrange(a as int, s@.len() as int).drop_first() =~= s@.subrange(a + 1, s@.len() as int));
        a = a + 1;
    }
    let ghost l = s@.subrange(a as int, s@.len() as int);
    assert(ltrim_quotes(l) == l);
    let mut b: usize = s.len();
    assert(l.subrange(0, (b - a) as int) =~= l);
    while b > a && (s[b - 1] == '"' || s[b - 1] == '\'')
        invariant
            a <= b <= s@.len(),
            l == s@.subrange(a as int, s@.len() as int),
            rtrim_quotes(l) == rtrim_quotes(l.subrange(0, (b - a) as int)),
        decreases b,
    {
        assert(l.subrange(0, (b - a) as int).drop_last() =~= l.subrange(0, (b - a) - 1));
        b = b - 1;
    }
    assert(l.subrange(0, (b - a) as int) =~= s@.subrange(a as int, b as int));
    crate::text::slice_chars(s, a, b)
}

/// The pieces of `s` between its `\n` characters (`split('\n')`).
#[verifier::opaque]
pub open spec fn split_lines(s: Seq<char>) -> Seq<Seq<char>>
    decreases s.len(),
{
    let c = crate::text::find_char(s, '\n');
    proof {
        crate::routes::lemma_find_char_bounds(s, '\n');
    }
    if c < 0 {
        seq![s]
    } else {
        seq![s.take(c)] + split_lines(s.skip(c + 1))
    }
}

/// The setting a line of a simple `key: value` file holds: none for a blank line, a comment,
/// a line without `:` or with an empty key; else the trimmed key and the trimmed value
/// without surrounding quotes.
pub open spec fn yaml_line(line: Seq<char>) -> Option<(Seq<char>, Seq<char>)> {
    let l = crate::netguard::strip_trailing(trim(line), '\r');
    if l.len() == 0 || l[0] == '#' || !crate::text::has_char(l, ':') {
        None
    } else {
        let i = crate::text::find_char(l, ':');
        let key = trim(l.take(i));
        if key.len() == 0 {
            None
        } else {
            Some((key, trim_quotes(crate::netguard::strip_trailing(trim(l.skip(i + 1)), '\r'))))
        }
    }
}

/// The position of the first pair with key `k`, or -1.
pub open spec fn pair_index(ps: Seq<(Seq<char>, Seq<char>)>, k: Seq<char>) -> int
    decreases ps.len(),
{
    if ps.len() == 0 {
        -1
    } else {
        let i = pair_index(ps.drop_last(), k);
        if i >= 0 {
            i
        } else if ps.last().0 == k {
            ps.len() - 1
        } else {
            -1
        }
    }
}

/// The pairs with `k` set to `v`: replaced where `k` is, else appended.
pub open spec fn put_pair(ps: Seq<(Seq<char>, Seq<char>)>, k: Seq<char>, v: Seq<char>) -> Seq<(Seq<char>, Seq<char>)> {
    let i = pair_index(ps, k);
    if i < 0 {
        ps.push((k, v))
    } else {
        ps.update(i, (k, v))
    }
}

/// The settings of a list of lines, later lines overriding earlier ones.
pub open spec fn yaml_pairs(lines: Seq<Seq<char>>) -> Seq<(Seq<char>, Seq<char>)>
    decreases lines.len(),
{
    if lines.len() == 0 {
        Seq::empty()
    } else {
        let p = yaml_pairs(lines.drop_last());
        match yaml_line(lines.last()) {
            Some((k, v)) => put_pair(p, k, v),
            None => p,
        }
    }
}

/// The text without a leading byte-order mark.
pub open spec fn strip_bom(s: Seq<char>) -> Seq<char> {
    if s.len() > 0 && s[0] == '\u{feff}' {
        s.drop_first()
    } else {
        s
    }
}

/// The settings of a simple `key: value` file.
pub open spec fn simple_yaml_spec(text: Seq<char>) -> Seq<(Seq<char>, Seq<char>)> {
    yaml_pairs(split_lines(strip_bom(text)))
}

/// The setting on one line.
fn yaml_line_exec(line: &Vec<char>) -> (r: Option<(Vec<char>, Vec<char>)>)
    ensures
        match r {
            Some((k, v)) => yaml_line(line@) == Some((k@, v@)),
            None => yaml_line(line@) is None,
        },
{
    let t = trim_chars(line);
    let l = crate::netguard::strip_trailing_exec(&t, '\r');
    if l.len() == 0 || l[0] == '#' || !crate::text::has_char_exec(&l, ':') {
        return None;
    }
    let i = match crate::text::find_char_exec(&l, ':') {
        Some(i) => i,
        None => {
            return None;
        },
    };
    let kp = crate::text::slice_chars(&l, 0, i);
    assert(kp@ =~= l@.take(i as int));
    let key = trim_chars(&kp);
    if key.len() == 0 {
        return None;
    }
    let vp = crate::text::slice_chars(&l, i + 1, l.len());
    assert(vp@ =~= l@.skip(i + 1));
    let vt = trim_chars(&vp);
    let vr = crate::netguard::strip_trailing_exec(&vt, '\r');
    Some((key, trim_quotes_exec(&vr)))
}

/// The views of settings pairs.
pub open spec fn pviews(ps: Seq<(String, String)>) -> Seq<(Seq<char>, Seq<char>)> {
    ps.map_values(|p: (String, String)| (p.0@, p.1@))
}

/// Sets `k` to `v` in the pairs.
fn put_pair_exec(ps: &mut Vec<(String, String)>, k: Vec<char>, v: Vec<char>)
    ensures
        pviews(final(ps)@) == put_pair(pviews(old(ps)@), k@, v@),
{
    let ghost o = pviews(ps@);
    let mut i: usize = 0;
    while i < ps.len()
        invariant
            i <= ps@.len(),
            o == pviews(ps@),
            o == pviews(old(ps)@),
            forall|j: int| 0 <= j < i ==> o[j].0 != k@,
        decreases ps.len() - i,
    {
        if crate::text::eq_chars(&chars_of(ps[i].0.as_str()), &k) {
            proof {
                lemma_pair_index(o, k@, i as int);
            }
            ps.set(i, (string_of(&k), string_of(&v)));
            assert(pviews(ps@) =~= o.update(i as int, (k@, v@)));
            return;
        }
        i = i + 1;
    }
    proof {
        lemma_pair_index(o, k@, o.len() as int);
    }
    ps.push((string_of(&k), string_of(&v)));
    assert(pviews(ps@) =~= o.push((k@, v@)));
}

/// The first pair with key `k` is at `j` when none before it has that key.
proof fn lemma_pair_index(ps: Seq<(Seq<char>, Seq<char>)>, k: Seq<char>, j: int)
    requires
        0 <= j <= ps.len(),
        forall|m: int| 0 <= m < j ==> ps[m].0 != k,
        j < ps.len() ==> ps[j].0 == k,
    ensures
        pair_index(ps, k) == if j < ps.len() { j } else { -1 },
    decreases ps.len(),
{
    if ps.len() > 0 {
        if j == ps.len() {
            lemma_pair_index(ps.drop_last(), k, j - 1);
        } else {
            lemma_pair_index(ps.drop_last(), k, j);
        }
    }
}

/// Reads the settings of a simple `key: value` file (one per line; blank lines, `#`
/// comments, lines without `:` and empty keys skipped; surrounding quotes removed from
/// values; a later line overrides an earlier one with the same key). A leading byte-order
/// mark and `\r` line ends are ignored.
#[verifier::rlimit(30)]
pub fn parse_simple_yaml(text: &str) -> (r: Vec<(String, String)>)
    ensures
        pviews(r@) == simple_yaml_spec(text@),
{
    let all = chars_of(text);
    let body = if all.len() > 0 && all[0] == '\u{feff}' {
        let b = crate::text::slice_chars(&all, 1, all.len());
        assert(b@ =~= all@.drop_first());
        b
    } else {
        all
    };
    let mut rest = body;
    let mut out: Vec<(String, String)> = Vec::new();
    let ghost mut done: Seq<Seq<char>> = Seq::empty();
    assert(done + split_lines(rest@) =~= split_lines(strip_bom(text@)));
    loop
        invariant
            pviews(out@) == yaml_pairs(done),
            done + split_lines(rest@) == split_lines(strip_bom(text@)),
        decreases rest@.len(),
    {
        let c = crate::text::find_char_exec(&rest, '\n');
        let line = match c {
            Some(i) => crate::text::slice_chars(&rest, 0, i),
            None => rest.clone(),
        };
        assert(c matches Some(i) ==> line@ =~= rest@.take(i as int));
        match yaml_line_exec(&line) {
            Some((k, v)) => put_pair_exec(&mut out, k, v),
            None => {},
        }
        proof {
            assert((done.push(line@)).drop_last() =~= done);
            done = done.push(line@);
        }
        match c {
            None => {
                assert(split_lines(rest@) == seq![rest@]) by {
                    reveal(split_lines);
                }
                assert(done =~= split_lines(strip_bom(text@)));
                return out;
            },
            Some(i) => {
                let nr = crate::text::slice_chars(&rest, i + 1, rest.len());
                assert(split_lines(rest@) == seq![line@] + split_lines(nr@)) by {
                    reveal(split_lines);
                    assert(nr@ =~= rest@.skip(i + 1));
                }
                assert(done + split_lines(nr@) =~= split_lines(strip_bom(text@)));
                rest = nr;
            },
        }
    }
}

} // verus!

verus! {

/// IPv4 addresses and networks as they appear in an operator list.
pub const CIDR_PATTERN: &'static str = "\\b(?:\\d{1,3}\\.){3}\\d{1,3}(?:/\\d{1,2})?\\b";

/// The matches that read as a network or an address, each once, in order.
pub open spec fn cidrs_from(ms: Seq<Seq<char>>) -> Seq<Seq<char>>
    decreases ms.len(),
{
    if ms.len() == 0 {
        Seq::empty()
    } else {
        let p = cidrs_from(ms.drop_last());
        let m = ms.last();
        if (net_parse(m) is Some || ip_parse(m) is Some) && !p.contains(m) {
            p.push(m)
        } else {
            p
        }
    }
}

/// The IPv4 networks and addresses named in a text (such as an enrichment parser), each
/// once, in order of appearance.
pub fn extract_cidrs(text: &str) -> (r: Vec<String>)
    ensures
        crate::findings::sviews(r@) == cidrs_from(crate::pattern::regex_all(CIDR_PATTERN@, text@)),
{
    let ms = crate::pattern::re_find_all(CIDR_PATTERN, text);
    let ghost mv = crate::pattern::regex_all(CIDR_PATTERN@, text@);
    let mut out: Vec<String> = Vec::new();
    let mut i: usize = 0;
    assert(mv.take(0) =~= Seq::<Seq<char>>::empty());
    while i < ms.len()
        invariant
            i <= ms@.len() == mv.len(),
            mv == crate::pattern::regex_all(CIDR_PATTERN@, text@),
            forall|k: int| 0 <= k < ms@.len() ==> #[trigger] ms@[k]@ == mv[k],
            crate::findings::sviews(out@) == cidrs_from(mv.take(i as int)),
        decreases ms.len() - i,
    {
        assert(mv.take(i + 1).drop_last() =~= mv.take(i as int));
        assert(mv.take(i + 1).last() == ms@[i as int]@);
        let m = ms[i].as_str();
        let ok = crate::netaddr::parse_net(m).is_some() || crate::netaddr::parse_ip(m).is_some();
        if ok && !crate::findings::has_string(&out, &chars_of(m)) {
            let ghost o = out@;
            out.push(ms[i].clone());
            assert(crate::findings::sviews(out@) =~= crate::findings::sviews(o).push(mv[i as int]));
        }
        i = i + 1;
    }
    assert(mv.take(ms.len() as int) =~= mv);
    out
}

/// Whether one of the listed networks contains address `ip`.
pub fn parser_match(ip: &str, cidrs: &Vec<String>) -> (r: bool)
    ensures
        r == exists|k: int| 0 <= k < cidrs@.len() && net_has(#[trigger] cidrs@[k]@, ip@),
{
    let mut i: usize = 0;
    while i < cidrs.len()
        invariant
            i <= cidrs@.len(),
            forall|k: int| 0 <= k < i ==> !net_has(#[trigger] cidrs@[k]@, ip@),
        decreases cidrs.len() - i,
    {
        if crate::netaddr::net_contains(cidrs[i].as_str(), ip) {
            return true;
        }
        i = i + 1;
    }
    false
}

/// What a manual ban request asks: the trimmed address (which must be an IP), the validated
/// duration (`4h` by default) and the reason (`cso-console` by default, at most 120
/// characters); or the refusal.
pub open spec fn ban_verdict(p: JsonV) -> Result<(Seq<char>, Seq<char>, Seq<char>), Seq<char>> {
    let ip = trim(str_or_empty(p, "ip"@));
    if ip_parse(ip) is None {
        Err("invalid ip"@)
    } else {
        match crate::control::duration_verdict(str_or(p, "duration"@, "4h"@)) {
            Err(m) => Err(m),
            Ok((a, u)) => Ok(
                (ip, crate::control::int_text(a) + u, crate::text::take_at_most(str_or(p, "reason"@, "cso-console"@), 120)),
            ),
        }
    }
}

/// The manual-ban decision of a ban alert.
pub open spec fn ban_decision(ip: Seq<char>, duration: Seq<char>, reason: Seq<char>) -> JsonV {
    JsonV::Object(
        seq![
            ("duration"@, JsonV::Str(duration)),
            ("reason"@, JsonV::Str(reason)),
            ("origin"@, JsonV::Str("cscli"@)),
            ("scenario"@, JsonV::Str("manual/cso-ban"@)),
            ("type"@, JsonV::Str("ban"@)),
            ("scope"@, JsonV::Str("Ip"@)),
            ("value"@, JsonV::Str(ip)),
        ],
    )
}

/// The alert body posted to the Local API for a manual ban at time `now`.
pub open spec fn ban_body(ip: Seq<char>, duration: Seq<char>, reason: Seq<char>, now: Seq<char>) -> JsonV {
    JsonV::Array(
        seq![
            JsonV::Object(
                seq![
                    ("scenario"@, JsonV::Str("manual/cso-ban"@)),
                    ("scenario_hash"@, JsonV::Str(Seq::empty())),
                    ("scenario_version"@, JsonV::Str("1.2"@)),
                    ("message"@, JsonV::Str(reason)),
                    ("events_count"@, JsonV::Int(1)),
                    ("start_at"@, JsonV::Str(now)),
                    ("stop_at"@, JsonV::Str(now)),
                    ("capacity"@, JsonV::Int(0)),
                    ("leakspeed"@, JsonV::Str("0"@)),
                    ("simulated"@, JsonV::Bool(false)),
                    ("events"@, JsonV::Array(Seq::empty())),
                    ("source"@, JsonV::Object(
                        seq![
                            ("scope"@, JsonV::Str("Ip"@)),
                            ("value"@, JsonV::Str(ip)),
                            ("ip"@, JsonV::Str(ip)),
                        ],
                    )),
                    ("decisions"@, JsonV::Array(seq![ban_decision(ip, duration, reason)])),
                ],
            ),
        ],
    )
}

/// A validated manual ban: address, duration, reason and the alert body to post.
pub struct BanRequest {
    pub ip: String,
    pub duration: String,
    pub reason: String,
    pub body: Json,
}

/// The decision object of a manual ban.
fn ban_decision_exec(ip: &Vec<char>, duration: &Vec<char>, reason: &Vec<char>) -> (r: Json)
    ensures
        r@ == ban_decision(ip@, duration@, reason@),
{
    let mut f: Vec<(String, Json)> = Vec::new();
    f.push((String::from_str("duration"), Json::Str(string_of(duration))));
    f.push((String::from_str("reason"), Json::Str(string_of(reason))));
    f.push((String::from_str("origin"), Json::Str(String::from_str("cscli"))));
    f.push((String::from_str("scenario"), Json::Str(String::from_str("manual/cso-ban"))));
    f.push((String::from_str("type"), Json::Str(String::from_str("ban"))));
    f.push((String::from_str("scope"), Json::Str(String::from_str("Ip"))));
    f.push((String::from_str("value"), Json::Str(string_of(ip))));
    let o = crate::findings::object_of(f);
    assert(crate::json::fview(f@) =~= ban_decision(ip@, duration@, reason@)->Object_0);
    o
}

/// The alert body of a manual ban.
fn ban_body_exec(ip: &Vec<char>, duration: &Vec<char>, reason: &Vec<char>, now: &str) -> (r: Json)
    ensures
        r@ == ban_body(ip@, duration@, reason@, now@),
{
    let mut src: Vec<(String, Json)> = Vec::new();
    src.push((String::from_str("scope"), Json::Str(String::from_str("Ip"))));
    src.push((String::from_str("value"), Json::Str(string_of(ip))));
    src.push((String::from_str("ip"), Json::Str(string_of(ip))));
    let so = crate::findings::object_of(src);
    let mut ds: Vec<Json> = Vec::new();
    ds.push(ban_decision_exec(ip, duration, reason));
    assert(jviews(ds@) =~= seq![ban_decision(ip@, duration@, reason@)]);
    let none: Vec<Json> = Vec::new();
    assert(jviews(none@) =~= Seq::<JsonV>::empty());
    let mut f: Vec<(String, Json)> = Vec::new();
    f.push((String::from_str("scenario"), Json::Str(String::from_str("manual/cso-ban"))));
    f.push((String::from_str("scenario_hash"), Json::Str(String::new())));
    f.push((String::from_str("scenario_version"), Json::Str(String::from_str("1.2"))));
    f.push((String::from_str("message"), Json::Str(string_of(reason))));
    f.push((String::from_str("events_count"), Json::Int(1)));
    f.push((String::from_str("start_at"), Json::Str(String::from_str(now))));
    f.push((String::from_str("stop_at"), Json::Str(String::from_str(now))));
    f.push((String::from_str("capacity"), Json::Int(0)));
    f.push((String::from_str("leakspeed"), Json::Str(String::from_str("0"))));
    f.push((String::from_str("simulated"), Json::Bool(false)));
    f.push((String::from_str("events"), crate::findings::array_of(none)));
    f.push((String::from_str("source"), so));
    f.push((String::from_str("decisions"), crate::findings::array_of(ds)));
    let alert = crate::findings::object_of(f);
    let mut top: Vec<Json> = Vec::new();
    top.push(alert);
    let body = crate::findings::array_of(top);
    assert(crate::json::fview(src@) =~= seq![
        ("scope"@, JsonV::Str("Ip"@)),
        ("value"@, JsonV::Str(ip@)),
        ("ip"@, JsonV::Str(ip@)),
    ]);
    assert(crate::json::fview(f@) =~= ban_body(ip@, duration@, reason@, now@)->Array_0[0]->Object_0);
    assert(jviews(top@) =~= ban_body(ip@, duration@, reason@, now@)->Array_0);
    body
}

/// Validates a manual ban request and builds the alert to post for it at time `now`.
pub fn ban_request(payload: &Json, now: &str) -> (r: Result<BanRequest, String>)
    ensures
        match ban_verdict(payload@) {
            Ok((ip, d, why)) => r matches Ok(b) && b.ip@ == ip && b.duration@ == d && b.reason@ == why
                && b.body@ == ban_body(ip, d, why, now@),
            Err(m) => r matches Err(e) && e@ == m,
        },
{
    let ip = trim_chars(&chars_of(crate::json::get_str_or_empty(payload, "ip").as_str()));
    let ips = string_of(&ip);
    if crate::netaddr::parse_ip(ips.as_str()).is_none() {
        return Err(String::from_str("invalid ip"));
    }
    let draw = crate::json::get_str_or(payload, "duration", "4h");
    let ds = string_of(&draw);
    let duration = match crate::control::validate_duration(ds.as_str()) {
        Ok(d) => d,
        Err(e) => {
            return Err(e);
        },
    };
    let rraw = crate::json::get_str_or(payload, "reason", "cso-console");
    let reason = crate::text::take_chars(&rraw, 120);
    let dc = chars_of(duration.as_str());
    let body = ban_body_exec(&ip, &dc, &reason, now);
    Ok(BanRequest { ip: ips, duration, reason: string_of(&reason), body })
}

} // verus!

verus! {

/// The pieces of `s` between its `c` characters (`split(c)`), empty pieces included.
#[verifier::opaque]
pub open spec fn split_at_char(s: Seq<char>, c: char) -> Seq<Seq<char>>
    decreases s.len(),
{
    let i = crate::text::find_char(s, c);
    proof {
        crate::routes::lemma_find_char_bounds(s, c);
    }
    if i < 0 {
        seq![s]
    } else {
        seq![s.take(i)] + split_at_char(s.skip(i + 1), c)
    }
}

/// The comma-separated pieces of `s`.
pub open spec fn split_pieces(s: Seq<char>) -> Seq<Seq<char>> {
    split_at_char(s, ',')
}

/// Splits text at every `c` (`str::split`).
pub fn split_char(text: &str, c: char) -> (r: Vec<String>)
    ensures
        crate::findings::sviews(r@) == split_at_char(text@, c),
{
    let mut rest = chars_of(text);
    let mut out: Vec<String> = Vec::new();
    assert(crate::findings::sviews(out@) + split_at_char(rest@, c) =~= split_at_char(text@, c));
    loop
        invariant
            crate::findings::sviews(out@) + split_at_char(rest@, c) == split_at_char(text@, c),
        decreases rest@.len(),
    {
        let f = crate::text::find_char_exec(&rest, c);
        let piece = match f {
            Some(i) => crate::text::slice_chars(&rest, 0, i),
            None => rest.clone(),
        };
        assert(f matches Some(i) ==> piece@ =~= rest@.take(i as int));
        let ghost o = out@;
        out.push(string_of(&piece));
        assert(crate::findings::sviews(out@) =~= crate::findings::sviews(o).push(piece@));
        match f {
            None => {
                assert(split_at_char(rest@, c) == seq![rest@]) by {
                    reveal(split_at_char);
                }
                assert(crate::findings::sviews(out@) =~= split_at_char(text@, c));
                return out;
            },
            Some(i) => {
                let nr = crate::text::slice_chars(&rest, i + 1, rest.len());
                assert(split_at_char(rest@, c) == seq![piece@] + split_at_char(nr@, c)) by {
                    reveal(split_at_char);
                    assert(nr@ =~= rest@.skip(i + 1));
                }
                assert(crate::findings::sviews(out@) + split_at_char(nr@, c) =~= split_at_char(text@, c));
                rest = nr;
            },
        }
    }
}

/// Splits text at every comma.
pub fn split_on_comma(text: &str) -> (r: Vec<String>)
    ensures
        crate::findings::sviews(r@) == split_pieces(text@),
{
    split_char(text, ',')
}

} // verus!

verus! {

/// Field `k1` of `p` when present, else field `k2` (`get(k1).or_else(|| get(k2))`).
pub open spec fn first_present(p: JsonV, k1: Seq<char>, k2: Seq<char>) -> Option<JsonV> {
    match jget(p, k1) {
        Some(v) => Some(v),
        None => jget(p, k2),
    }
}

/// The keys of a reply object joined by commas; `?` for a reply that is not an object.
pub open spec fn key_hint(p: JsonV) -> Seq<char> {
    match p {
        JsonV::Object(f) => crate::json::join_comma(f.map_values(|e: (Seq<char>, JsonV)| e.0)),
        _ => "?"@,
    }
}

/// The reason a refused login gives: its `message` (else `error`) text, at most 200
/// characters; empty where it is not text.
pub open spec fn login_detail(p: JsonV) -> Seq<char> {
    crate::text::take_at_most(
        match jstr(first_present(p, "message"@, "error"@)) {
            Some(s) => s,
            None => Seq::empty(),
        },
        200,
    )
}

/// The token of a login reply: its `token` (else `code`) text, when not empty.
pub open spec fn login_token(p: JsonV) -> Option<Seq<char>> {
    match jstr(first_present(p, "token"@, "code"@)) {
        Some(t) => if t.len() > 0 {
            Some(t)
        } else {
            None
        },
        None => None,
    }
}

/// What a machine login gives: the token of a 2xx reply, else the error the console
/// reports (with the credential lengths and the URL, never the credentials).
pub open spec fn login_reply_spec(status: int, p: JsonV, login_len: int, pw_len: int, url: Seq<char>) -> Result<
    Seq<char>,
    Seq<char>,
> {
    if !(200 <= status < 300) {
        Err(
            "LAPI login HTTP "@ + crate::control::int_text(status) + " "@ + key_hint(p) + " "@ + login_detail(p)
                + " (login_len="@ + crate::control::int_text(login_len) + " pw_len="@ + crate::control::int_text(
                pw_len,
            ) + " url="@ + url + ")"@,
        )
    } else {
        match login_token(p) {
            Some(t) => Ok(t),
            None => Err("LAPI login returned no token (keys="@ + key_hint(p) + ")"@),
        }
    }
}

/// Field `k1` of `p` when present, else field `k2`.
fn first_present_exec<'a>(p: &'a Json, k1: &str, k2: &str) -> (r: Option<&'a Json>)
    ensures
        match r {
            Some(x) => first_present(p@, k1@, k2@) == Some(x@),
            None => first_present(p@, k1@, k2@) is None,
        },
{
    match get(p, k1) {
        Some(v) => Some(v),
        None => get(p, k2),
    }
}

/// The keys of a reply joined by commas (`?` when it is not an object).
fn key_hint_exec(p: &Json) -> (r: Vec<char>)
    ensures
        r@ == key_hint(p@),
{
    match p {
        Json::Object(f) => {
            proof {
                crate::json::lemma_object_view(*p);
            }
            let ghost ks = p@->Object_0.map_values(|e: (Seq<char>, JsonV)| e.0);
            let mut out: Vec<char> = Vec::new();
            let mut i: usize = 0;
            assert(ks.take(0) =~= Seq::<Seq<char>>::empty());
            while i < f.len()
                invariant
                    i <= f@.len() == ks.len(),
                    ks == p@->Object_0.map_values(|e: (Seq<char>, JsonV)| e.0),
                    forall|k: int| 0 <= k < f@.len() ==> #[trigger] ks[k] == f@[k].0@,
                    out@ == crate::json::join_comma(ks.take(i as int)),
                decreases f.len() - i,
            {
                assert(ks.take(i + 1).drop_last() =~= ks.take(i as int));
                assert(ks.take(i + 1).last() == f@[i as int].0@);
                if i > 0 {
                    out.push(',');
                }
                crate::text::append_chars(&mut out, &chars_of(f[i].0.as_str()));
                proof {
                    if i == 0 {
                        assert(ks.take(1) =~= seq![ks[0]]);
                    }
                }
                i = i + 1;
            }
            assert(ks.take(f.len() as int) =~= ks);
            out
        },
        _ => chars_of("?"),
    }
}

/// The outcome of a machine login reply with HTTP `status`: the token, or the error to
/// report; `login_len`, `pw_len` and `url` only go into that error.
pub fn login_reply(status: u16, payload: &Json, login_len: usize, pw_len: usize, url: &str) -> (r: Result<
    String,
    String,
>)
    requires
        login_len <= i64::MAX,
        pw_len <= i64::MAX,
    ensures
        match login_reply_spec(status as int, payload@, login_len as int, pw_len as int, url@) {
            Ok(t) => r matches Ok(x) && x@ == t,
            Err(m) => r matches Err(e) && e@ == m,
        },
{
    let hint = key_hint_exec(payload);
    if !(200 <= status && status < 300) {
        let detail_src: Vec<char> = match first_present_exec(payload, "message", "error") {
            Some(Json::Str(s)) => chars_of(s.as_str()),
            _ => Vec::new(),
        };
        let detail = crate::text::take_chars(&detail_src, 200);
        let mut m = chars_of("LAPI login HTTP ");
        crate::text::append_chars(&mut m, &crate::control::int_text_exec(status as i64));
        crate::text::append_str(&mut m, " ");
        crate::text::append_chars(&mut m, &hint);
        crate::text::append_str(&mut m, " ");
        crate::text::append_chars(&mut m, &detail);
        crate::text::append_str(&mut m, " (login_len=");
        crate::text::append_chars(&mut m, &crate::control::int_text_exec(login_len as i64));
        crate::text::append_str(&mut m, " pw_len=");
        crate::text::append_chars(&mut m, &crate::control::int_text_exec(pw_len as i64));
        crate::text::append_str(&mut m, " url=");
        crate::text::append_chars(&mut m, &chars_of(url));
        crate::text::append_str(&mut m, ")");
        return Err(string_of(&m));
    }
    match first_present_exec(payload, "token", "code") {
        Some(Json::Str(t)) => {
            if chars_of(t.as_str()).len() > 0 {
                return Ok(t.clone());
            }
        },
        _ => {},
    }
    let mut m = chars_of("LAPI login returned no token (keys=");
    crate::text::append_chars(&mut m, &hint);
    crate::text::append_str(&mut m, ")");
    Err(string_of(&m))
}

} // verus!

verus! {

/// The entries of a JSON object (none for anything else).
pub open spec fn fields_of(v: JsonV) -> Seq<(Seq<char>, JsonV)> {
    match v {
        JsonV::Object(f) => f,
        _ => Seq::empty(),
    }
}

/// Whether some entry of `f` has key `k`.
pub open spec fn has_key_in(f: Seq<(Seq<char>, JsonV)>, k: Seq<char>) -> bool {
    exists|i: int| 0 <= i < f.len() && #[trigger] f[i].0 == k
}

/// The entries of `a`, then those of `b` whose key is not there yet, in order.
pub open spec fn merge_fields(a: Seq<(Seq<char>, JsonV)>, b: Seq<(Seq<char>, JsonV)>) -> Seq<(Seq<char>, JsonV)>
    decreases b.len(),
{
    if b.len() == 0 {
        a
    } else {
        let p = merge_fields(a, b.drop_last());
        if has_key_in(p, b.last().0) {
            p
        } else {
            p.push(b.last())
        }
    }
}

/// The source of an alert for the map: its own `source` entries, completed by those of its
/// first event's `source`.
pub open spec fn merged_source(a: JsonV) -> JsonV {
    JsonV::Object(
        merge_fields(
            fields_of(crate::findings::source_value(a)),
            match crate::findings::event_source(a) {
                Some(es) => fields_of(es),
                None => Seq::empty(),
            },
        ),
    )
}

/// The entries of a JSON value that is an object (a copy), else none.
fn fields_exec(v: &Json) -> (r: Vec<(String, Json)>)
    ensures
        crate::json::fview(r@) == fields_of(v@),
{
    match v {
        Json::Object(f) => {
            proof {
                crate::json::lemma_object_view(*v);
            }
            let r = crate::json::clone_fields(f);
            assert(crate::json::fview(r@) =~= fields_of(v@));
            r
        },
        _ => {
            let r: Vec<(String, Json)> = Vec::new();
            assert(crate::json::fview(r@) =~= Seq::<(Seq<char>, JsonV)>::empty());
            r
        },
    }
}

/// Whether some entry of `f` has key `k`.
fn has_key_exec(f: &Vec<(String, Json)>, k: &String) -> (r: bool)
    ensures
        r == has_key_in(crate::json::fview(f@), k@),
{
    let ghost fv = crate::json::fview(f@);
    let kc = chars_of(k.as_str());
    let mut i: usize = 0;
    while i < f.len()
        invariant
            i <= f@.len() == fv.len(),
            fv == crate::json::fview(f@),
            kc@ == k@,
            forall|j: int| 0 <= j < i ==> fv[j].0 != k@,
        decreases f.len() - i,
    {
        assert(fv[i as int].0 == f@[i as int].0@);
        if crate::text::eq_chars(&chars_of(f[i].0.as_str()), &kc) {
            assert(fv[i as int].0 == k@);
            return true;
        }
        i = i + 1;
    }
    false
}

/// The source of an alert for the map: its own `source` entries, then the entries of its
/// first event's `source` that it lacks.
pub fn source_merge(a: &Json) -> (r: Json)
    ensures
        r@ == merged_source(a@),
{
    let mut out = fields_exec(&crate::findings::source_exec(a));
    let extra: Vec<(String, Json)> = match crate::findings::event_source_exec(a) {
        Some(es) => fields_exec(&es),
        None => Vec::new(),
    };
    let ghost base = crate::json::fview(out@);
    let ghost ev = crate::json::fview(extra@);
    assert(ev =~= match crate::findings::event_source(a@) {
        Some(es) => fields_of(es),
        None => Seq::<(Seq<char>, JsonV)>::empty(),
    });
    let mut i: usize = 0;
    assert(ev.take(0) =~= Seq::<(Seq<char>, JsonV)>::empty());
    while i < extra.len()
        invariant
            i <= extra@.len() == ev.len(),
            ev == crate::json::fview(extra@),
            crate::json::fview(out@) == merge_fields(base, ev.take(i as int)),
        decreases extra.len() - i,
    {
        assert(ev.take(i + 1).drop_last() =~= ev.take(i as int));
        assert(ev.take(i + 1).last() == ev[i as int]);
        assert(ev[i as int] == (extra@[i as int].0@, extra@[i as int].1@));
        if !has_key_exec(&out, &extra[i].0) {
            let ghost o = crate::json::fview(out@);
            out.push((extra[i].0.clone(), crate::json::clone_json(&extra[i].1)));
            assert(crate::json::fview(out@) =~= o.push(ev[i as int]));
        }
        i = i + 1;
    }
    assert(ev.take(extra.len() as int) =~= ev);
    crate::findings::object_of(out)
}

/// The address, country (uppercased; the alert's own `cn` as a last resort), city and AS
/// name that a merged source gives for the map.
pub open spec fn source_names(m: JsonV, a: JsonV) -> (Seq<char>, Seq<char>, Seq<char>, Seq<char>) {
    let text = |v: Option<JsonV>|
        match jstr(v) {
            Some(s) => s,
            None => Seq::<char>::empty(),
        };
    (
        text(first_present(m, "ip"@, "value"@)),
        cn_upper(text(
            match first_present(m, "cn"@, "country"@) {
                Some(v) => Some(v),
                None => jget(a, "cn"@),
            },
        )),
        str_or_empty(m, "city"@),
        text(first_present(m, "as_name"@, "asname"@)),
    )
}

/// A country code as the map shows it (`str::to_uppercase`).
pub open spec fn cn_upper(s: Seq<char>) -> Seq<char> {
    crate::text::upper(s)
}

/// The text of a JSON string (empty for anything else).
fn text_exec(v: Option<&Json>) -> (r: Vec<char>)
    ensures
        r@ == match jstr(match v { Some(x) => Some(x@), None => None }) {
            Some(s) => s,
            None => Seq::<char>::empty(),
        },
{
    match v {
        Some(Json::Str(s)) => chars_of(s.as_str()),
        _ => Vec::new(),
    }
}

/// The address, country, city and AS name of a merged source `m` of alert `a`.
pub fn source_names_exec(m: &Json, a: &Json) -> (r: (String, String, String, String))
    ensures
        (r.0@, r.1@, r.2@, r.3@) == source_names(m@, a@),
{
    let ip = text_exec(first_present_exec(m, "ip", "value"));
    let cn_src = match first_present_exec(m, "cn", "country") {
        Some(v) => Some(v),
        None => get(a, "cn"),
    };
    let cn = text_exec(cn_src);
    let cn_up = crate::text::to_upper(string_of(&cn).as_str());
    let city = crate::json::get_str_or_empty(m, "city");
    let asn = text_exec(first_present_exec(m, "as_name", "asname"));
    (string_of(&ip), cn_up, city, string_of(&asn))
}

} // verus!
