//! CrowdSec LAPI/AppSec dashboard: reading alert metadata, rows, filters and aggregates.
use vstd::prelude::*;

use crate::json::{
    fview, set_entry, set_field, vget, clone_json, field_is, get, get_str, get_str_or_empty, is_object, jget, jstr, jtext, json_text,
    jviews, lemma_array_view, lemma_object_view, str_or_empty, Json, JsonV,
};
use crate::netguard::{byte_len, utf8_width};
use crate::pattern::{re_find, re_is_match, regex_first, regex_match};
use crate::text::{
    append_chars, append_str, before_first, before_first_exec, chars_of, contains, contains_chars,
    eq_chars, find_char, has_char, has_prefix, has_suffix, lower, lower_chars, rfind_char,
    rfind_char_exec, slice_chars, starts_with_chars, ends_with_chars, string_of, trim, trim_chars,
    trim_matches, trim_matches_exec, upper, upper_chars,
};

verus! {

/// The text of a JSON value: a string as is, `null` as "", anything else as its JSON text.
pub open spec fn value_text(v: JsonV) -> Seq<char> {
    match v {
        JsonV::Null => Seq::empty(),
        JsonV::Str(s) => s,
        _ => jtext(v),
    }
}

/// Quotes of either kind removed from both ends.
pub open spec fn unquote2(s: Seq<char>) -> Seq<char> {
    trim_matches(trim_matches(s, '"'), '\'')
}

/// What `unwrap` answers: the trimmed text of a metadata value, unquoted; for a bracketed
/// list, its first element (or the whole inner text when that is empty).
#[verifier::opaque]
pub open spec fn unwrap_spec(v: JsonV) -> Seq<char> {
    let text = trim(value_text(v));
    if text.len() == 0 {
        Seq::empty()
    } else if has_prefix(text, "["@) && has_suffix(text, "]"@) {
        let inner = trim(text.subrange(1, text.len() - 1));
        let first = unquote2(trim(before_first(inner, ',')));
        let t = if first.len() == 0 { unquote2(inner) } else { first };
        unquote2(trim(t))
    } else {
        unquote2(trim(text))
    }
}

/// Reads a CrowdSec metadata value as plain text (unquoted; first element of a list).
pub fn unwrap(raw: &Json) -> (r: String)
    ensures
        r@ == unwrap_spec(raw@),
{
    reveal(unwrap_spec);
    let text0: Vec<char> = match raw {
        Json::Null => Vec::new(),
        Json::Str(s) => chars_of(s.as_str()),
        _ => {
            let t = json_text(raw);
            chars_of(t.as_str())
        },
    };
    let text = trim_chars(&text0);
    if text.len() == 0 {
        return String::new();
    }
    let open = chars_of("[");
    let close = chars_of("]");
    if starts_with_chars(&text, &open) && ends_with_chars(&text, &close) {
        proof {
            reveal_strlit("[");
            reveal_strlit("]");
            assert(text@.subrange(0, 1) == seq!['[']);
            assert(text@.subrange(0, 1)[0] == text@[0]);
            assert(text@.subrange(text@.len() - 1, text@.len() as int) == seq![']']);
            assert(text@.subrange(text@.len() - 1, text@.len() as int)[0] == text@[text@.len() - 1]);
            assert(text@.len() >= 2);
        }
        let body = slice_chars(&text, 1, text.len() - 1);
        let inner = trim_chars(&body);
        let head = before_first_exec(&inner, ',');
        let ht = trim_chars(&head);
        let first = unquote2_exec(&ht);
        let t = if first.len() == 0 { unquote2_exec(&inner) } else { first };
        let tt = trim_chars(&t);
        return string_of(&unquote2_exec(&tt));
    }
    let tt = trim_chars(&text);
    string_of(&unquote2_exec(&tt))
}

/// Quotes of either kind removed from both ends.
fn unquote2_exec(v: &Vec<char>) -> (r: Vec<char>)
    ensures
        r@ == unquote2(v@),
{
    let a = trim_matches_exec(v, '"');
    trim_matches_exec(&a, '\'')
}

/// `unwrap` of a plain string.
pub open spec fn unwrap_str(s: Seq<char>) -> Seq<char> {
    unwrap_spec(JsonV::Str(s))
}

/// `unwrap` of a plain string.
fn unwrap_text(s: &str) -> (r: Vec<char>)
    ensures
        r@ == unwrap_str(s@),
{
    let j = Json::Str(String::from_str(s));
    let u = unwrap(&j);
    chars_of(u.as_str())
}

/// The host of an `http://` or `https://` URL: before any path, after any user part, before
/// any port; `None` when empty or not such a URL.
pub open spec fn simple_hostname_spec(url: Seq<char>) -> Option<Seq<char>> {
    match url_rest(url) {
        None => None,
        Some(r) => {
            let h = rest_host(r);
            if h.len() == 0 { None } else { Some(h) }
        },
    }
}

/// What follows the scheme of an `http(s)://` URL.
pub open spec fn url_rest(url: Seq<char>) -> Option<Seq<char>> {
    if has_prefix(url, "https://"@) {
        Some(url.skip("https://"@.len() as int))
    } else if has_prefix(url, "http://"@) {
        Some(url.skip("http://"@.len() as int))
    } else {
        None
    }
}

/// What follows the scheme of an `http(s)://` URL.
fn url_rest_exec(url: &Vec<char>) -> (r: Option<Vec<char>>)
    ensures
        match url_rest(url@) {
            Some(x) => r matches Some(y) && y@ == x,
            None => r is None,
        },
{
    let https = chars_of("https://");
    let http = chars_of("http://");
    if starts_with_chars(url, &https) {
        let r = slice_chars(url, https.len(), url.len());
        assert(r@ =~= url@.skip("https://"@.len() as int));
        Some(r)
    } else if starts_with_chars(url, &http) {
        let r = slice_chars(url, http.len(), url.len());
        assert(r@ =~= url@.skip("http://"@.len() as int));
        Some(r)
    } else {
        None
    }
}

/// The host part after the scheme: before any path, after any user part, before any port.
pub open spec fn rest_host(r: Seq<char>) -> Seq<char> {
    let hp = before_first(r, '/');
    let at = rfind_char(hp, '@');
    before_first(if at >= 0 { hp.skip(at + 1) } else { hp }, ':')
}

/// The host part after the scheme.
fn rest_host_exec(rest: &Vec<char>) -> (r: Vec<char>)
    ensures
        r@ == rest_host(rest@),
{
    let hp = before_first_exec(rest, '/');
    let after = match rfind_char_exec(&hp, '@') {
        Some(i) => {
            assert(i < hp@.len());
            let r = slice_chars(&hp, i + 1, hp.len());
            assert(r@ =~= hp@.skip(i + 1));
            r
        },
        None => hp.clone(),
    };
    before_first_exec(&after, ':')
}

/// The host of an `http(s)://` URL.
pub fn simple_hostname(url: &Vec<char>) -> (r: Option<Vec<char>>)
    ensures
        match simple_hostname_spec(url@) {
            Some(h) => r matches Some(x) && x@ == h,
            None => r is None,
        },
{
    let rest = match url_rest_exec(url) {
        Some(r) => r,
        None => return None,
    };
    let h = rest_host_exec(&rest);
    if h.len() == 0 { None } else { Some(h) }
}

/// Number of `c` in `s`.
pub open spec fn count_char(s: Seq<char>, c: char) -> nat
    decreases s.len(),
{
    if s.len() == 0 {
        0
    } else {
        count_char(s.drop_last(), c) + if s.last() == c { 1nat } else { 0nat }
    }
}

/// Number of `c` in `v`.
fn count_char_exec(v: &Vec<char>, c: char) -> (r: usize)
    ensures
        r == count_char(v@, c),
{
    let mut n: usize = 0;
    let mut i: usize = 0;
    assert(v@.take(0) =~= Seq::<char>::empty());
    while i < v.len()
        invariant
            i <= v.len(),
            n == count_char(v@.take(i as int), c),
            n <= i,
        decreases v.len() - i,
    {
        assert(v@.take(i + 1).drop_last() =~= v@.take(i as int));
        if v[i] == c {
            n = n + 1;
        }
        i = i + 1;
    }
    assert(v@.take(v.len() as int) =~= v@);
    n
}

/// What `clean_host` answers: the lowercased host of a metadata value, first of a list,
/// without scheme, user, port or a leading `www.`.
#[verifier::opaque]
pub open spec fn clean_host_spec(raw: Seq<char>) -> Seq<char> {
    let h0 = trim(before_first(lower(unwrap_str(raw)), ','));
    let h1 = if has_prefix(h0, "http://"@) || has_prefix(h0, "https://"@) {
        match simple_hostname_spec(h0) {
            Some(h) => h,
            None => h0,
        }
    } else {
        h0
    };
    let h2 = if has_char(h1, ':') && count_char(h1, ':') <= 1 { before_first(h1, ':') } else { h1 };
    if has_prefix(h2, "www."@) { h2.skip("www."@.len() as int) } else { h2 }
}

/// Normalizes a host name taken from alert metadata.
pub fn clean_host(raw: &str) -> (r: String)
    ensures
        r@ == clean_host_spec(raw@),
{
    reveal(clean_host_spec);
    let u = unwrap_text(raw);
    let l = lower_chars(&u);
    let b = before_first_exec(&l, ',');
    let h0 = trim_chars(&b);
    let http = chars_of("http://");
    let https = chars_of("https://");
    let h1 = if starts_with_chars(&h0, &http) || starts_with_chars(&h0, &https) {
        match simple_hostname(&h0) {
            Some(h) => h,
            None => h0,
        }
    } else {
        h0
    };
    let h2 = if crate::text::has_char_exec(&h1, ':') && count_char_exec(&h1, ':') <= 1 {
        before_first_exec(&h1, ':')
    } else {
        h1
    };
    let www = chars_of("www.");
    if starts_with_chars(&h2, &www) {
        let r = slice_chars(&h2, www.len(), h2.len());
        assert(r@ =~= h2@.skip("www."@.len() as int));
        string_of(&r)
    } else {
        string_of(&h2)
    }
}

/// The longest prefix of `s` whose UTF-8 encoding fits in `cap` bytes.
pub open spec fn cut_bytes(s: Seq<char>, cap: nat) -> Seq<char>
    decreases s.len(),
{
    if byte_len(s) <= cap || s.len() == 0 {
        s
    } else {
        cut_bytes(s.drop_last(), cap)
    }
}

/// A longer cap keeps at least as long a prefix, and no prefix is longer than the text.
pub proof fn lemma_cut_bytes_len(s: Seq<char>, a: nat, b: nat)
    requires
        a <= b,
    ensures
        cut_bytes(s, a).len() <= cut_bytes(s, b).len() <= s.len(),
    decreases s.len(),
{
    if byte_len(s) <= b || s.len() == 0 {
        lemma_cut_bytes_within(s, a);
    } else {
        lemma_cut_bytes_len(s.drop_last(), a, b);
    }
}

/// The kept prefix is no longer than the text.
proof fn lemma_cut_bytes_within(s: Seq<char>, a: nat)
    ensures
        cut_bytes(s, a).len() <= s.len(),
    decreases s.len(),
{
    if !(byte_len(s) <= a || s.len() == 0) {
        lemma_cut_bytes_within(s.drop_last(), a);
    }
}

/// The path part of a metadata value: before the query, trimmed.
pub open spec fn path_part(raw: Seq<char>) -> Seq<char> {
    trim(before_first(unwrap_str(raw), '?'))
}

/// Whether `clean_path` can cut the path: it takes at most 180 bytes, or its 177th byte
/// ends a character (`&path[..177]` panics otherwise).
pub open spec fn path_cuts_cleanly(raw: Seq<char>) -> bool {
    let p = path_part(raw);
    byte_len(p) <= 180 || byte_len(cut_bytes(p, 177)) == 177
}

/// What `clean_path` answers: the path of a metadata value without its query, `/` when
/// empty; one over 180 bytes is cut to its first 177 bytes and marked with `...`.
#[verifier::opaque]
pub open spec fn clean_path_spec(raw: Seq<char>) -> Seq<char> {
    let p0 = path_part(raw);
    let p = if p0.len() == 0 { "/"@ } else { p0 };
    if byte_len(p) > 180 { cut_bytes(p, 177) + "..."@ } else { p }
}

/// The longest prefix of `v` that fits in `cap` bytes.
fn cut_bytes_exec(v: &Vec<char>, cap: u64) -> (r: Vec<char>)
    ensures
        r@ == cut_bytes(v@, cap as nat),
{
    let mut n = v.len();
    let mut prefix = v.clone();
    assert(v@.take(n as int) =~= v@);
    while n > 0 && crate::netguard::byte_len_exceeds(&prefix, cap)
        invariant
            n <= v.len(),
            prefix@ == v@.take(n as int),
            cut_bytes(v@, cap as nat) == cut_bytes(v@.take(n as int), cap as nat),
        decreases n,
    {
        assert(v@.take(n as int).drop_last() =~= v@.take(n - 1));
        n = n - 1;
        prefix = slice_chars(v, 0, n);
        assert(prefix@ =~= v@.take(n as int));
    }
    prefix
}

/// Normalizes a request path taken from alert metadata.
pub fn clean_path(raw: &str) -> (r: String)
    requires
        path_cuts_cleanly(raw@),
    ensures
        r@ == clean_path_spec(raw@),
{
    reveal(clean_path_spec);
    let u = unwrap_text(raw);
    let b = before_first_exec(&u, '?');
    let p0 = trim_chars(&b);
    let p = if p0.len() == 0 { chars_of("/") } else { p0 };
    if crate::netguard::byte_len_exceeds(&p, 180) {
        let mut c = cut_bytes_exec(&p, 177);
        append_str(&mut c, "...");
        string_of(&c)
    } else {
        string_of(&p)
    }
}

/// The head of a JA4H fingerprint: its part before the first `_`, lower-cased.
pub open spec fn ja4h_head(ja4h: Seq<char>) -> Seq<char> {
    lower(before_first(unwrap_str(ja4h), '_'))
}

/// Whether the version bytes of a JA4H head can be read: it takes under 4 bytes, or its
/// 2nd and 4th bytes end characters (`&head[2..4]` panics otherwise).
pub open spec fn ja4h_cuts_cleanly(ja4h: Seq<char>) -> bool {
    let head = ja4h_head(ja4h);
    byte_len(head) < 4 || (byte_len(cut_bytes(head, 2)) == 2 && byte_len(cut_bytes(head, 4)) == 4)
}

/// The HTTP version a JA4H fingerprint records in bytes 2 to 4 of its head.
#[verifier::opaque]
pub open spec fn http_version_spec(ja4h: Seq<char>) -> Seq<char> {
    let head = ja4h_head(ja4h);
    if byte_len(head) < 4 {
        Seq::empty()
    } else {
        let v = head.subrange(cut_bytes(head, 2).len() as int, cut_bytes(head, 4).len() as int);
        if v == "09"@ {
            "HTTP/0.9"@
        } else if v == "10"@ {
            "HTTP/1.0"@
        } else if v == "11"@ {
            "HTTP/1.1"@
        } else if v == "20"@ {
            "HTTP/2"@
        } else if v == "30"@ {
            "HTTP/3"@
        } else {
            Seq::empty()
        }
    }
}

/// The HTTP version recorded in a JA4H fingerprint ("" when unknown).
pub fn http_version_from_ja4h(ja4h: &str) -> (r: String)
    requires
        ja4h_cuts_cleanly(ja4h@),
    ensures
        r@ == http_version_spec(ja4h@),
{
    reveal(http_version_spec);
    let u = unwrap_text(ja4h);
    let b = before_first_exec(&u, '_');
    let head = lower_chars(&b);
    if !crate::netguard::byte_len_exceeds(&head, 3) {
        return String::new();
    }
    let c2 = cut_bytes_exec(&head, 2);
    let c4 = cut_bytes_exec(&head, 4);
    proof {
        lemma_cut_bytes_len(head@, 2, 4);
    }
    let v = slice_chars(&head, c2.len(), c4.len());
    let s = |t: &str| -> (b: bool)
        ensures
            b == (v@ == t@),
    {
        let c = chars_of(t);
        eq_chars(&v, &c)
    };
    if s("09") {
        String::from_str("HTTP/0.9")
    } else if s("10") {
        String::from_str("HTTP/1.0")
    } else if s("11") {
        String::from_str("HTTP/1.1")
    } else if s("20") {
        String::from_str("HTTP/2")
    } else if s("30") {
        String::from_str("HTTP/3")
    } else {
        String::new()
    }
}

} // verus!

verus! {

/// The key/value pairs of one `meta` row of a list: `key` (or `name`) and `value` (or `val`),
/// read with `unwrap`; "" where absent.
pub open spec fn meta_row_pair(row: JsonV) -> (Seq<char>, Seq<char>) {
    (
        match (match jget(row, "key"@) {
            Some(v) => Some(v),
            None => jget(row, "name"@),
        }) {
            Some(v) => unwrap_spec(v),
            None => Seq::empty(),
        },
        match (match jget(row, "value"@) {
            Some(v) => Some(v),
            None => jget(row, "val"@),
        }) {
            Some(v) => unwrap_spec(v),
            None => Seq::empty(),
        },
    )
}

/// The pairs of the object rows of a `meta` list.
pub open spec fn meta_list_pairs(list: Seq<JsonV>) -> Seq<(Seq<char>, Seq<char>)>
    decreases list.len(),
{
    if list.len() == 0 {
        Seq::empty()
    } else {
        let prev = meta_list_pairs(list.drop_last());
        if list.last() is Object {
            prev.push(meta_row_pair(list.last()))
        } else {
            prev
        }
    }
}

/// What `meta_pairs` answers: the key/value pairs of an alert's `meta` (an object, or a
/// list of key/value objects), values read with `unwrap`.
pub open spec fn meta_pairs_spec(blob: JsonV) -> Seq<(Seq<char>, Seq<char>)> {
    match blob {
        JsonV::Object(f) => f.map_values(|e: (Seq<char>, JsonV)| (e.0, unwrap_spec(e.1))),
        JsonV::Array(list) => meta_list_pairs(list),
        _ => Seq::empty(),
    }
}

/// The views of text pairs.
pub open spec fn pviews(v: Seq<(String, String)>) -> Seq<(Seq<char>, Seq<char>)> {
    v.map_values(|p: (String, String)| (p.0@, p.1@))
}

/// The key/value pairs of an alert's `meta`.
pub fn meta_pairs(blob: &Json) -> (r: Vec<(String, String)>)
    ensures
        pviews(r@) == meta_pairs_spec(blob@),
{
    let mut out: Vec<(String, String)> = Vec::new();
    match blob {
        Json::Object(fields) => {
            proof {
                lemma_object_view(*blob);
            }
            let ghost f = blob@->Object_0;
            let mut i: usize = 0;
            while i < fields.len()
                invariant
                    i <= fields@.len() == f.len(),
                    f == blob@->Object_0,
                    forall|k: int| 0 <= k < f.len() ==> #[trigger] f[k] == (fields@[k].0@, fields@[k].1@),
                    pviews(out@) == f.take(i as int).map_values(|e: (Seq<char>, JsonV)| (e.0, unwrap_spec(e.1))),
                decreases fields.len() - i,
            {
                let v = unwrap(&fields[i].1);
                let k = fields[i].0.clone();
                let ghost before = pviews(out@);
                let ghost pair = (k@, v@);
                out.push((k, v));
                assert(pviews(out@) =~= before.push(pair));
                assert(f.take(i + 1).map_values(|e: (Seq<char>, JsonV)| (e.0, unwrap_spec(e.1))) =~= f.take(i as int).map_values(
                    |e: (Seq<char>, JsonV)| (e.0, unwrap_spec(e.1)),
                ).push((f[i as int].0, unwrap_spec(f[i as int].1))));
                i = i + 1;
            }
            assert(f.take(f.len() as int) =~= f);
        },
        Json::Array(list) => {
            proof {
                lemma_array_view(*blob);
            }
            let ghost a = blob@->Array_0;
            let mut i: usize = 0;
            assert(a.take(0) =~= Seq::<JsonV>::empty());
            assert(pviews(out@) =~= Seq::<(Seq<char>, Seq<char>)>::empty());
            while i < list.len()
                invariant
                    i <= list@.len() == a.len(),
                    a == blob@->Array_0,
                    forall|k: int| 0 <= k < a.len() ==> #[trigger] a[k] == list@[k]@,
                    pviews(out@) == meta_list_pairs(a.take(i as int)),
                decreases list.len() - i,
            {
                assert(a.take(i + 1).drop_last() =~= a.take(i as int));
                if is_object(&list[i]) {
                    let row = &list[i];
                    let k = match get(row, "key") {
                        Some(v) => unwrap(v),
                        None => match get(row, "name") {
                            Some(v) => unwrap(v),
                            None => String::new(),
                        },
                    };
                    let v = match get(row, "value") {
                        Some(x) => unwrap(x),
                        None => match get(row, "val") {
                            Some(x) => unwrap(x),
                            None => String::new(),
                        },
                    };
                    let ghost before = pviews(out@);
                    out.push((k, v));
                    assert(pviews(out@) =~= before.push(meta_row_pair(a[i as int])));
                }
                i = i + 1;
            }
            assert(a.take(a.len() as int) =~= a);
        },
        _ => {
            assert(pviews(out@) =~= Seq::<(Seq<char>, Seq<char>)>::empty());
        },
    }
    out
}

} // verus!

verus! {

/// Adds non-empty pairs to a key/value table: with `keep_first`, a key already there keeps
/// its value; otherwise a later value replaces it.
pub open spec fn add_pairs(m: Seq<(Seq<char>, JsonV)>, ps: Seq<(Seq<char>, Seq<char>)>, keep_first: bool) -> Seq<(Seq<char>, JsonV)>
    decreases ps.len(),
{
    if ps.len() == 0 {
        m
    } else {
        let m1 = add_pairs(m, ps.drop_last(), keep_first);
        let (k, v) = ps.last();
        if k.len() > 0 && v.len() > 0 && !(keep_first && vget(m1, k) is Some) {
            set_entry(m1, k, JsonV::Str(v))
        } else {
            m1
        }
    }
}

/// The pairs of the `meta` of each object event, added in turn (later values win).
pub open spec fn add_events(m: Seq<(Seq<char>, JsonV)>, evs: Seq<JsonV>) -> Seq<(Seq<char>, JsonV)>
    decreases evs.len(),
{
    if evs.len() == 0 {
        m
    } else {
        let m1 = add_events(m, evs.drop_last());
        let e = evs.last();
        if e is Object && jget(e, "meta"@) is Some {
            add_pairs(m1, meta_pairs_spec(jget(e, "meta"@)->Some_0), false)
        } else {
            m1
        }
    }
}

/// What `meta_map` answers: the alert's own `meta` (first value of a key wins), then the
/// `meta` of its events (later values win); empty keys and values are ignored.
pub open spec fn meta_map_spec(alert: JsonV) -> Seq<(Seq<char>, JsonV)> {
    let m0 = match jget(alert, "meta"@) {
        Some(b) => add_pairs(Seq::empty(), meta_pairs_spec(b), true),
        None => Seq::empty(),
    };
    match jget(alert, "events"@) {
        Some(JsonV::Array(evs)) => add_events(m0, evs),
        _ => m0,
    }
}

/// Adds non-empty pairs to a key/value table.
fn add_pairs_exec(m: &mut Vec<(String, Json)>, ps: &Vec<(String, String)>, keep_first: bool)
    ensures
        fview(final(m)@) == add_pairs(fview(old(m)@), pviews(ps@), keep_first),
{
    let ghost m0 = fview(m@);
    let ghost all = pviews(ps@);
    let mut i: usize = 0;
    assert(all.take(0) =~= Seq::<(Seq<char>, Seq<char>)>::empty());
    while i < ps.len()
        invariant
            i <= ps@.len() == all.len(),
            all == pviews(ps@),
            fview(m@) == add_pairs(m0, all.take(i as int), keep_first),
        decreases ps.len() - i,
    {
        assert(all.take(i + 1).drop_last() =~= all.take(i as int));
        assert(all.take(i + 1).last() == (ps@[i as int].0@, ps@[i as int].1@));
        let k = chars_of(ps[i].0.as_str());
        let v = chars_of(ps[i].1.as_str());
        if k.len() > 0 && v.len() > 0 {
            let present = if keep_first {
                let probe = Json::Object(crate::json::clone_fields(m));
                proof {
                    crate::json::lemma_object_fview(probe);
                }
                get(&probe, ps[i].0.as_str()).is_some()
            } else {
                false
            };
            if !present {
                crate::json::obj_set(m, ps[i].0.as_str(), Json::Str(ps[i].1.clone()));
            }
        }
        i = i + 1;
    }
    assert(all.take(ps.len() as int) =~= all);
}

/// The merged metadata of an alert, as a key/value table.
pub fn meta_map(alert: &Json) -> (r: Vec<(String, Json)>)
    ensures
        fview(r@) == meta_map_spec(alert@),
{
    let mut m: Vec<(String, Json)> = Vec::new();
    assert(fview(m@) =~= Seq::<(Seq<char>, JsonV)>::empty());
    match get(alert, "meta") {
        Some(b) => {
            let ps = meta_pairs(b);
            add_pairs_exec(&mut m, &ps, true);
        },
        None => {},
    }
    let ghost m0 = fview(m@);
    match get(alert, "events") {
        Some(evj) => match evj {
            Json::Array(evs) => {
                proof {
                    lemma_array_view(*evj);
                }
                let ghost a = evj@->Array_0;
                let mut i: usize = 0;
                assert(a.take(0) =~= Seq::<JsonV>::empty());
                while i < evs.len()
                    invariant
                        i <= evs@.len() == a.len(),
                        a == evj@->Array_0,
                        forall|k: int| 0 <= k < a.len() ==> #[trigger] a[k] == evs@[k]@,
                        fview(m@) == add_events(m0, a.take(i as int)),
                    decreases evs.len() - i,
                {
                    assert(a.take(i + 1).drop_last() =~= a.take(i as int));
                    assert(a.take(i + 1).last() == evs@[i as int]@);
                    if is_object(&evs[i]) {
                        match get(&evs[i], "meta") {
                            Some(b) => {
                                let ps = meta_pairs(b);
                                add_pairs_exec(&mut m, &ps, false);
                            },
                            None => {},
                        }
                    }
                    i = i + 1;
                }
                assert(a.take(a.len() as int) =~= a);
            },
            _ => {},
        },
        None => {},
    }
    m
}

} // verus!

verus! {

/// The value of the first of `keys` present in a metadata table.
pub open spec fn first_of(m: Seq<(Seq<char>, JsonV)>, keys: Seq<Seq<char>>) -> Option<Seq<char>>
    decreases keys.len(),
{
    if keys.len() == 0 {
        None
    } else {
        match vget(m, keys[0]) {
            Some(v) => jstr(Some(v)),
            None => first_of(m, keys.drop_first()),
        }
    }
}

/// A found text, or "".
pub open spec fn or_blank(o: Option<Seq<char>>) -> Seq<char> {
    match o {
        Some(s) => s,
        None => Seq::empty(),
    }
}

/// The ASCII uppercase letters of `s`, in order.
pub open spec fn ascii_upper_only(s: Seq<char>) -> Seq<char>
    decreases s.len(),
{
    if s.len() == 0 {
        s
    } else if 'A' <= s.last() && s.last() <= 'Z' {
        ascii_upper_only(s.drop_last()).push(s.last())
    } else {
        ascii_upper_only(s.drop_last())
    }
}

/// Every character is an ASCII digit.
pub open spec fn all_digits(s: Seq<char>) -> bool {
    forall|i: int| 0 <= i < s.len() ==> '0' <= #[trigger] s[i] && s[i] <= '9'
}

/// The HTTP facts of an alert, from its metadata.
pub struct HttpInfo {
    pub host: String,
    pub path: String,
    pub method: String,
    pub ua: String,
    pub ja4h: String,
    pub http_version: String,
    pub status: String,
    pub service: String,
    pub rule: String,
    pub rule_ids: String,
    pub zones: String,
    pub data: String,
    pub asn: String,
    pub appsec_action: String,
}

/// The object an alert has under `source` (an empty one otherwise).
pub open spec fn source_of(alert: JsonV) -> JsonV {
    match jget(alert, "source"@) {
        Some(JsonV::Object(f)) => JsonV::Object(f),
        _ => JsonV::Object(Seq::empty()),
    }
}

/// The request method of the metadata: uppercased; a list or a text with blanks keeps only
/// its ASCII capitals.
pub open spec fn method_spec(m: Seq<(Seq<char>, JsonV)>) -> Seq<char> {
    let up = upper(unwrap_str(or_blank(first_of(m, seq!["http_verb"@, "verb"@, "method"@]))));
    if has_prefix(up, "["@) || has_char(up, ' ') { ascii_upper_only(up) } else { up }
}

/// The response status of the metadata, "" unless all digits.
pub open spec fn status_spec(m: Seq<(Seq<char>, JsonV)>) -> Seq<char> {
    let st = unwrap_str(or_blank(first_of(m, seq!["http_status"@, "status"@])));
    if st.len() > 0 && !all_digits(st) { Seq::empty() } else { st }
}

/// The operator of the source network: metadata `ASNOrg`, else the source's `as_name` (or
/// `asname`).
pub open spec fn asn_spec(alert: JsonV, m: Seq<(Seq<char>, JsonV)>) -> Seq<char> {
    let src = source_of(alert);
    unwrap_str(
        match first_of(m, seq!["ASNOrg"@]) {
            Some(s) => s,
            None => match (match jget(src, "as_name"@) {
                Some(v) => Some(v),
                None => jget(src, "asname"@),
            }) {
                Some(v) => unwrap_spec(v),
                None => Seq::empty(),
            },
        },
    )
}

/// The service of an alert: metadata `rule_name` (or `service`), else its scenario.
pub open spec fn service_spec(alert: JsonV, m: Seq<(Seq<char>, JsonV)>) -> Seq<char> {
    match first_of(m, seq!["rule_name"@, "service"@]) {
        Some(s) => s,
        None => match jget(alert, "scenario"@) {
            Some(v) => unwrap_spec(v),
            None => Seq::empty(),
        },
    }
}

/// The HTTP facts of an alert, mathematically.
pub struct HttpV {
    pub host: Seq<char>,
    pub path: Seq<char>,
    pub method: Seq<char>,
    pub ua: Seq<char>,
    pub ja4h: Seq<char>,
    pub http_version: Seq<char>,
    pub status: Seq<char>,
    pub service: Seq<char>,
    pub rule: Seq<char>,
    pub rule_ids: Seq<char>,
    pub zones: Seq<char>,
    pub data: Seq<char>,
    pub asn: Seq<char>,
    pub appsec_action: Seq<char>,
}

/// What `http_of` answers for an alert.
pub open spec fn http_view(alert: JsonV) -> HttpV {
    let m = meta_map_spec(alert);
    let ja4h = unwrap_str(or_blank(first_of(m, seq!["ja4h"@, "ja4"@])));
    HttpV {
        host: clean_host_spec(or_blank(first_of(m, seq!["target_fqdn"@, "target_host"@, "http_host"@, "host"@]))),
        path: clean_path_spec(or_blank(first_of(m, seq!["target_uri"@, "uri"@, "http_path"@]))),
        method: method_spec(m),
        ua: unwrap_str(or_blank(first_of(m, seq!["http_user_agent"@, "user_agent"@]))),
        ja4h: ja4h,
        http_version: http_version_spec(ja4h),
        status: status_spec(m),
        service: service_spec(alert, m),
        rule: or_blank(first_of(m, seq!["rule_name"@])),
        rule_ids: unwrap_str(or_blank(first_of(m, seq!["rule_ids"@]))),
        zones: unwrap_str(or_blank(first_of(m, seq!["matched_zones"@]))),
        data: crate::text::take_at_most(unwrap_str(or_blank(first_of(m, seq!["data"@]))), 120),
        asn: asn_spec(alert, m),
        appsec_action: lower(unwrap_str(or_blank(first_of(m, seq!["appsec_action"@])))),
    }
}

/// Whether the HTTP facts of an alert can be read: its path and its JA4H fingerprint are
/// cut between characters.
pub open spec fn alert_cuts_ok(alert: JsonV) -> bool {
    let m = meta_map_spec(alert);
    &&& path_cuts_cleanly(or_blank(first_of(m, seq!["target_uri"@, "uri"@, "http_path"@])))
    &&& ja4h_cuts_cleanly(unwrap_str(or_blank(first_of(m, seq!["ja4h"@, "ja4"@]))))
}

/// The view of an `HttpInfo`.
pub open spec fn hview(h: HttpInfo) -> HttpV {
    HttpV {
        host: h.host@,
        path: h.path@,
        method: h.method@,
        ua: h.ua@,
        ja4h: h.ja4h@,
        http_version: h.http_version@,
        status: h.status@,
        service: h.service@,
        rule: h.rule@,
        rule_ids: h.rule_ids@,
        zones: h.zones@,
        data: h.data@,
        asn: h.asn@,
        appsec_action: h.appsec_action@,
    }
}

/// `h` holds the HTTP facts of `alert`.
pub open spec fn http_info_ok(alert: JsonV, h: HttpInfo) -> bool {
    hview(h) == http_view(alert)
}

/// The value of the first of `keys` present in the metadata table `mj`.
fn first_of_exec(mj: &Json, keys: &[&str]) -> (r: Option<String>)
    requires
        mj@ is Object,
    ensures
        match first_of(mj@->Object_0, keys@.map_values(|k: &str| k@)) {
            Some(s) => r matches Some(x) && x@ == s,
            None => r is None,
        },
{
    let ghost ks = keys@.map_values(|k: &str| k@);
    let ghost m = mj@->Object_0;
    let mut i: usize = 0;
    assert(ks.subrange(0, ks.len() as int) =~= ks);
    while i < keys.len()
        invariant
            i <= keys@.len() == ks.len(),
            ks == keys@.map_values(|k: &str| k@),
            mj@ == JsonV::Object(m),
            first_of(m, ks) == first_of(m, ks.subrange(i as int, ks.len() as int)),
        decreases keys.len() - i,
    {
        let ghost rest = ks.subrange(i as int, ks.len() as int);
        assert(rest[0] == keys@[i as int]@);
        assert(rest.drop_first() =~= ks.subrange(i + 1, ks.len() as int));
        match get(mj, keys[i]) {
            Some(v) => {
                return match v {
                    Json::Str(s) => Some(s.clone()),
                    _ => None,
                };
            },
            None => {},
        }
        i = i + 1;
    }
    None
}

/// A found text, or "".
fn or_blank_exec(o: Option<String>) -> (r: String)
    ensures
        r@ == or_blank(match o { Some(s) => Some(s@), None => None }),
{
    match o {
        Some(s) => s,
        None => String::new(),
    }
}

/// The ASCII capitals of `v`.
fn ascii_upper_only_exec(v: &Vec<char>) -> (r: Vec<char>)
    ensures
        r@ == ascii_upper_only(v@),
{
    let mut r: Vec<char> = Vec::new();
    let mut i: usize = 0;
    assert(v@.take(0) =~= Seq::<char>::empty());
    while i < v.len()
        invariant
            i <= v.len(),
            r@ == ascii_upper_only(v@.take(i as int)),
        decreases v.len() - i,
    {
        assert(v@.take(i + 1).drop_last() =~= v@.take(i as int));
        if 'A' <= v[i] && v[i] <= 'Z' {
            r.push(v[i]);
        }
        i = i + 1;
    }
    assert(v@.take(v.len() as int) =~= v@);
    r
}

/// Whether every character is an ASCII digit.
fn all_digits_exec(v: &Vec<char>) -> (r: bool)
    ensures
        r == all_digits(v@),
{
    let mut i: usize = 0;
    while i < v.len()
        invariant
            i <= v.len(),
            forall|k: int| 0 <= k < i ==> '0' <= #[trigger] v@[k] && v@[k] <= '9',
        decreases v.len() - i,
    {
        if !('0' <= v[i] && v[i] <= '9') {
            return false;
        }
        i = i + 1;
    }
    true
}

} // verus!

verus! {

/// The metadata value of the first of `keys`, or "".
fn meta_text(mj: &Json, keys: &[&str]) -> (r: String)
    requires
        mj@ is Object,
    ensures
        r@ == or_blank(first_of(mj@->Object_0, keys@.map_values(|k: &str| k@))),
{
    or_blank_exec(first_of_exec(mj, keys))
}

/// Host and path of the metadata.
fn http_host_path(mj: &Json, m: Ghost<Seq<(Seq<char>, JsonV)>>) -> (r: (String, String))
    requires
        mj@ == JsonV::Object(m@),
        path_cuts_cleanly(or_blank(first_of(m@, seq!["target_uri"@, "uri"@, "http_path"@]))),
    ensures
        r.0@ == clean_host_spec(or_blank(first_of(m@, seq!["target_fqdn"@, "target_host"@, "http_host"@, "host"@]))),
        r.1@ == clean_path_spec(or_blank(first_of(m@, seq!["target_uri"@, "uri"@, "http_path"@]))),
{
    let k_host: [&str; 4] = ["target_fqdn", "target_host", "http_host", "host"];
    assert(k_host@.map_values(|k: &str| k@) =~= seq!["target_fqdn"@, "target_host"@, "http_host"@, "host"@]);
    let host_raw = meta_text(mj, &k_host);
    let k_path: [&str; 3] = ["target_uri", "uri", "http_path"];
    assert(k_path@.map_values(|k: &str| k@) =~= seq!["target_uri"@, "uri"@, "http_path"@]);
    let path_raw = meta_text(mj, &k_path);
    (clean_host(host_raw.as_str()), clean_path(path_raw.as_str()))
}

/// Method, user agent and JA4H of the metadata.
fn http_client(mj: &Json, m: Ghost<Seq<(Seq<char>, JsonV)>>) -> (r: (String, String, String))
    requires
        mj@ == JsonV::Object(m@),
    ensures
        r.0@ == method_spec(m@),
        r.1@ == unwrap_str(or_blank(first_of(m@, seq!["http_user_agent"@, "user_agent"@]))),
        r.2@ == unwrap_str(or_blank(first_of(m@, seq!["ja4h"@, "ja4"@]))),
{
    let k_verb: [&str; 3] = ["http_verb", "verb", "method"];
    assert(k_verb@.map_values(|k: &str| k@) =~= seq!["http_verb"@, "verb"@, "method"@]);
    let verb_raw = meta_text(mj, &k_verb);
    let vu = unwrap_text(verb_raw.as_str());
    let up = upper_chars(&vu);
    let open = chars_of("[");
    let method = if starts_with_chars(&up, &open) || crate::text::has_char_exec(&up, ' ') {
        ascii_upper_only_exec(&up)
    } else {
        up
    };
    let k_ua: [&str; 2] = ["http_user_agent", "user_agent"];
    assert(k_ua@.map_values(|k: &str| k@) =~= seq!["http_user_agent"@, "user_agent"@]);
    let ua_raw = meta_text(mj, &k_ua);
    let ua = unwrap_text(ua_raw.as_str());
    let k_ja: [&str; 2] = ["ja4h", "ja4"];
    assert(k_ja@.map_values(|k: &str| k@) =~= seq!["ja4h"@, "ja4"@]);
    let ja_raw = meta_text(mj, &k_ja);
    let ja4h = unwrap_text(ja_raw.as_str());
    (string_of(&method), string_of(&ua), string_of(&ja4h))
}

/// Status, rule ids, zones, data and AppSec action of the metadata.
fn http_details(mj: &Json, m: Ghost<Seq<(Seq<char>, JsonV)>>) -> (r: (String, String, String, String, String, String))
    requires
        mj@ == JsonV::Object(m@),
    ensures
        r.0@ == status_spec(m@),
        r.1@ == or_blank(first_of(m@, seq!["rule_name"@])),
        r.2@ == unwrap_str(or_blank(first_of(m@, seq!["rule_ids"@]))),
        r.3@ == unwrap_str(or_blank(first_of(m@, seq!["matched_zones"@]))),
        r.4@ == crate::text::take_at_most(unwrap_str(or_blank(first_of(m@, seq!["data"@]))), 120),
        r.5@ == lower(unwrap_str(or_blank(first_of(m@, seq!["appsec_action"@])))),
{
    let k_st: [&str; 2] = ["http_status", "status"];
    assert(k_st@.map_values(|k: &str| k@) =~= seq!["http_status"@, "status"@]);
    let st_raw = meta_text(mj, &k_st);
    let st0 = unwrap_text(st_raw.as_str());
    let status = if st0.len() > 0 && !all_digits_exec(&st0) { Vec::new() } else { st0 };
    let k_rule: [&str; 1] = ["rule_name"];
    assert(k_rule@.map_values(|k: &str| k@) =~= seq!["rule_name"@]);
    let rule = meta_text(mj, &k_rule);
    let k_ids: [&str; 1] = ["rule_ids"];
    assert(k_ids@.map_values(|k: &str| k@) =~= seq!["rule_ids"@]);
    let ids_raw = meta_text(mj, &k_ids);
    let rule_ids = unwrap_text(ids_raw.as_str());
    let k_z: [&str; 1] = ["matched_zones"];
    assert(k_z@.map_values(|k: &str| k@) =~= seq!["matched_zones"@]);
    let z_raw = meta_text(mj, &k_z);
    let zones = unwrap_text(z_raw.as_str());
    let k_d: [&str; 1] = ["data"];
    assert(k_d@.map_values(|k: &str| k@) =~= seq!["data"@]);
    let d_raw = meta_text(mj, &k_d);
    let d0 = unwrap_text(d_raw.as_str());
    let data = crate::text::take_chars(&d0, 120);
    let k_a: [&str; 1] = ["appsec_action"];
    assert(k_a@.map_values(|k: &str| k@) =~= seq!["appsec_action"@]);
    let a_raw = meta_text(mj, &k_a);
    let a0 = unwrap_text(a_raw.as_str());
    let appsec_action = lower_chars(&a0);
    (string_of(&status), rule, string_of(&rule_ids), string_of(&zones), string_of(&data), string_of(&appsec_action))
}

/// The service of an alert.
fn http_service(alert: &Json, mj: &Json, m: Ghost<Seq<(Seq<char>, JsonV)>>) -> (r: String)
    requires
        mj@ == JsonV::Object(m@),
    ensures
        r@ == service_spec(alert@, m@),
{
    let k_svc: [&str; 2] = ["rule_name", "service"];
    assert(k_svc@.map_values(|k: &str| k@) =~= seq!["rule_name"@, "service"@]);
    match first_of_exec(mj, &k_svc) {
        Some(s) => s,
        None => match get(alert, "scenario") {
            Some(v) => unwrap(v),
            None => String::new(),
        },
    }
}

/// Reads the HTTP facts of an alert from its merged metadata.
pub fn http_of(alert: &Json) -> (h: HttpInfo)
    requires
        alert_cuts_ok(alert@),
    ensures
        http_info_ok(alert@, h),
{
    let fields = meta_map(alert);
    let mj = Json::Object(fields);
    proof {
        crate::json::lemma_object_fview(mj);
    }
    let ghost m = meta_map_spec(alert@);
    let (host, path) = http_host_path(&mj, Ghost(m));
    let (method, ua, ja4h) = http_client(&mj, Ghost(m));
    let version = http_version_from_ja4h(ja4h.as_str());
    let (status, rule, rule_ids, zones, data, appsec_action) = http_details(&mj, Ghost(m));
    let service = http_service(alert, &mj, Ghost(m));
    let asn = asn_exec(alert, &mj);
    HttpInfo {
        host,
        path,
        method,
        ua,
        ja4h,
        http_version: version,
        status,
        service,
        rule,
        rule_ids,
        zones,
        data,
        asn: string_of(&asn),
        appsec_action,
    }
}

/// Whether `clean_path` can cut the path of `raw`.
fn path_cuts_exec(raw: &str) -> (r: bool)
    ensures
        r == path_cuts_cleanly(raw@),
{
    let u = unwrap_text(raw);
    let b = before_first_exec(&u, '?');
    let p = trim_chars(&b);
    if !crate::netguard::byte_len_exceeds(&p, 180) {
        return true;
    }
    let c = cut_bytes_exec(&p, 177);
    crate::netguard::byte_len_exceeds(&c, 176) && !crate::netguard::byte_len_exceeds(&c, 177)
}

/// Whether the version bytes of the JA4H head of `ja4h` can be read.
fn ja4h_cuts_exec(ja4h: &str) -> (r: bool)
    ensures
        r == ja4h_cuts_cleanly(ja4h@),
{
    let u = unwrap_text(ja4h);
    let b = before_first_exec(&u, '_');
    let head = lower_chars(&b);
    if !crate::netguard::byte_len_exceeds(&head, 3) {
        return true;
    }
    let c2 = cut_bytes_exec(&head, 2);
    let c4 = cut_bytes_exec(&head, 4);
    crate::netguard::byte_len_exceeds(&c2, 1) && !crate::netguard::byte_len_exceeds(&c2, 2)
        && crate::netguard::byte_len_exceeds(&c4, 3) && !crate::netguard::byte_len_exceeds(&c4, 4)
}

/// Whether the HTTP facts of an alert can be read (`http_of` would panic otherwise, on a
/// path or a JA4H fingerprint cut inside a character).
pub fn alert_cuts_cleanly(alert: &Json) -> (r: bool)
    ensures
        r == alert_cuts_ok(alert@),
{
    let fields = meta_map(alert);
    let mj = Json::Object(fields);
    proof {
        crate::json::lemma_object_fview(mj);
    }
    let k_path: [&str; 3] = ["target_uri", "uri", "http_path"];
    assert(k_path@.map_values(|k: &str| k@) =~= seq!["target_uri"@, "uri"@, "http_path"@]);
    let path_raw = meta_text(&mj, &k_path);
    let k_ja: [&str; 2] = ["ja4h", "ja4"];
    assert(k_ja@.map_values(|k: &str| k@) =~= seq!["ja4h"@, "ja4"@]);
    let ja_raw = meta_text(&mj, &k_ja);
    let ja = string_of(&unwrap_text(ja_raw.as_str()));
    path_cuts_exec(path_raw.as_str()) && ja4h_cuts_exec(ja.as_str())
}

/// The operator of the source network.
fn asn_exec(alert: &Json, mj: &Json) -> (r: Vec<char>)
    requires
        mj@ == JsonV::Object(meta_map_spec(alert@)),
    ensures
        r@ == asn_spec(alert@, meta_map_spec(alert@)),
{
    let k_asn: [&str; 1] = ["ASNOrg"];
    assert(k_asn@.map_values(|k: &str| k@) =~= seq!["ASNOrg"@]);
    let raw: String = match first_of_exec(mj, &k_asn) {
        Some(s) => s,
        None => {
            let src = source_exec(alert);
            match get(&src, "as_name") {
                Some(v) => unwrap(v),
                None => match get(&src, "asname") {
                    Some(v) => unwrap(v),
                    None => String::new(),
                },
            }
        },
    };
    unwrap_text(raw.as_str())
}

/// The object an alert has under `source` (an empty one otherwise), copied.
pub fn source_exec(alert: &Json) -> (r: Json)
    ensures
        r@ == source_of(alert@),
{
    match get(alert, "source") {
        Some(v) => {
            if is_object(v) {
                clone_json(v)
            } else {
                empty_object()
            }
        },
        None => empty_object(),
    }
}

/// An empty JSON object.
pub fn empty_object() -> (r: Json)
    ensures
        r@ == JsonV::Object(Seq::empty()),
{
    let r = Json::Object(Vec::new());
    proof {
        lemma_object_view(r);
        assert(r@->Object_0 =~= Seq::<(Seq<char>, JsonV)>::empty());
    }
    r
}

} // verus!

verus! {

/// The AppSec action an alert's metadata records, lowercased.
pub open spec fn appsec_action_spec(alert: JsonV) -> Seq<char> {
    http_view(alert).appsec_action
}

/// What `action_of` answers: `Block` for an alert with decisions, an AppSec ban/block/deny
/// or a manual operator ban; `Log` for an out-of-band (log-only) detection; else `Alert`.
pub open spec fn action_spec(alert: JsonV, appsec: Seq<char>) -> Seq<char> {
    let scenario = match jget(alert, "scenario"@) {
        Some(v) => lower(unwrap_spec(v)),
        None => Seq::empty(),
    };
    if (match jget(alert, "decisions"@) {
        Some(JsonV::Array(d)) => d.len() > 0,
        _ => false,
    }) {
        "Block"@
    } else if appsec == "ban"@ || appsec == "block"@ || appsec == "deny"@ {
        "Block"@
    } else if contains(scenario, "outofband"@) || has_prefix(scenario, "anomaly score out-of-band"@) {
        "Log"@
    } else if contains(scenario, "manual/cso-ban"@) {
        "Block"@
    } else {
        "Alert"@
    }
}

/// What an alert's AppSec/LAPI path did: `Block`, `Log` or `Alert`. `http` is the alert's
/// HTTP facts where already read.
pub fn action_of(alert: &Json, http: Option<&HttpInfo>) -> (r: String)
    requires
        http matches Some(h) ==> http_info_ok(alert@, *h),
        http is None ==> alert_cuts_ok(alert@),
    ensures
        r@ == action_spec(alert@, appsec_action_spec(alert@)),
{
    let appsec: String = match http {
        Some(h) => h.appsec_action.clone(),
        None => {
            let h = http_of(alert);
            h.appsec_action
        },
    };
    let has_decisions = crate::json::field_nonempty_array(alert, "decisions");
    if has_decisions {
        return String::from_str("Block");
    }
    let a = chars_of(appsec.as_str());
    let ban = chars_of("ban");
    let block = chars_of("block");
    let deny = chars_of("deny");
    if eq_chars(&a, &ban) || eq_chars(&a, &block) || eq_chars(&a, &deny) {
        return String::from_str("Block");
    }
    let scenario: Vec<char> = match get(alert, "scenario") {
        Some(v) => {
            let u = unwrap(v);
            let uc = chars_of(u.as_str());
            lower_chars(&uc)
        },
        None => Vec::new(),
    };
    let oob = chars_of("outofband");
    let anomaly = chars_of("anomaly score out-of-band");
    if contains_chars(&scenario, &oob) || starts_with_chars(&scenario, &anomaly) {
        return String::from_str("Log");
    }
    let manual = chars_of("manual/cso-ban");
    if contains_chars(&scenario, &manual) {
        return String::from_str("Block");
    }
    String::from_str("Alert")
}

/// What `enrich_alert` makes of an alert: its host, path and method (where found), its
/// action, and its service (the AppSec rule where there is one).
pub open spec fn enrich_spec(alert: JsonV) -> JsonV {
    let h = http_view(alert);
    let a1 = if h.host.len() > 0 { set_field(alert, "host"@, JsonV::Str(h.host)) } else { alert };
    let a2 = if h.path.len() > 0 { set_field(a1, "path"@, JsonV::Str(h.path)) } else { a1 };
    let a3 = if h.method.len() > 0 { set_field(a2, "method"@, JsonV::Str(h.method)) } else { a2 };
    let a4 = set_field(a3, "action"@, JsonV::Str(action_spec(alert, h.appsec_action)));
    set_field(a4, "service"@, JsonV::Str(if h.rule.len() > 0 { h.rule } else { h.service }))
}

/// Adds the HTTP facts, action and service of an alert to it.
#[verifier::rlimit(80)]
pub fn enrich_alert(alert: &mut Json)
    requires
        alert_cuts_ok(old(alert)@),
    ensures
        final(alert)@ == enrich_spec(old(alert)@),
{
    let h = http_of(alert);
    let act = action_of(alert, Some(&h));
    let ghost a0 = alert@;
    let a = crate::json::clone_json(alert);
    let hc = chars_of(h.host.as_str());
    let a1 = if hc.len() > 0 { crate::json::json_set(a, "host", Json::Str(h.host.clone())) } else { a };
    let pc = chars_of(h.path.as_str());
    let a2 = if pc.len() > 0 { crate::json::json_set(a1, "path", Json::Str(h.path.clone())) } else { a1 };
    let mc = chars_of(h.method.as_str());
    let a3 = if mc.len() > 0 { crate::json::json_set(a2, "method", Json::Str(h.method.clone())) } else { a2 };
    let a4 = crate::json::json_set(a3, "action", Json::Str(act));
    let rc = chars_of(h.rule.as_str());
    let svc = if rc.len() > 0 { h.rule.clone() } else { h.service.clone() };
    let a5 = crate::json::json_set(a4, "service", Json::Str(svc));
    *alert = a5;
}

/// Enriching an alert leaves its metadata as it was.
pub proof fn lemma_enrich_keeps_meta(a: JsonV)
    ensures
        meta_map_spec(enrich_spec(a)) == meta_map_spec(a),
{
    reveal_strlit("meta");
    reveal_strlit("events");
    reveal_strlit("host");
    reveal_strlit("path");
    reveal_strlit("method");
    reveal_strlit("action");
    reveal_strlit("service");
    let h = http_view(a);
    let a1 = if h.host.len() > 0 { set_field(a, "host"@, JsonV::Str(h.host)) } else { a };
    let a2 = if h.path.len() > 0 { set_field(a1, "path"@, JsonV::Str(h.path)) } else { a1 };
    let a3 = if h.method.len() > 0 { set_field(a2, "method"@, JsonV::Str(h.method)) } else { a2 };
    let a4 = set_field(a3, "action"@, JsonV::Str(action_spec(a, h.appsec_action)));
    let a5 = set_field(a4, "service"@, JsonV::Str(if h.rule.len() > 0 { h.rule } else { h.service }));
    let ka = seq!["meta"@, "events"@];
    assert forall|n: int| 0 <= n < 2 implies jget(a5, #[trigger] ka[n]) == jget(a, ka[n]) by {
        let k2 = ka[n];
        assert(k2.len() == 4 && k2[0] == 'm' || k2.len() == 6 && k2[0] == 'e');
        assert("service"@.len() != k2.len());
        assert("action"@[0] != k2[0]);
        assert("method"@.len() != k2.len() || "method"@[0] != k2[0]);
        assert("path"@[0] != k2[0]);
        assert("host"@[0] != k2[0]);
        lemma_set_field_other(a4, "service"@, JsonV::Str(if h.rule.len() > 0 { h.rule } else { h.service }), k2);
        lemma_set_field_other(a3, "action"@, JsonV::Str(action_spec(a, h.appsec_action)), k2);
        if h.method.len() > 0 {
            lemma_set_field_other(a2, "method"@, JsonV::Str(h.method), k2);
        }
        if h.path.len() > 0 {
            lemma_set_field_other(a1, "path"@, JsonV::Str(h.path), k2);
        }
        if h.host.len() > 0 {
            lemma_set_field_other(a, "host"@, JsonV::Str(h.host), k2);
        }
    }
    assert(jget(a5, ka[0]) == jget(a, ka[0]));
    assert(jget(a5, ka[1]) == jget(a, ka[1]));
}

/// Setting one field leaves the others as they were.
proof fn lemma_set_field_other(b: JsonV, k: Seq<char>, v: JsonV, k2: Seq<char>)
    requires
        k != k2,
    ensures
        jget(set_field(b, k, v), k2) == jget(b, k2),
{
    if let JsonV::Object(f) = b {
        crate::json::lemma_set_entry_get(f, k, v, k2);
    }
}

/// What `match_host` answers: no host filter, or the alert's host (its `host` field, else
/// the metadata's) is the wanted host, a subdomain of it, or a parent domain of it.
pub open spec fn match_host_spec(alert: JsonV, host: Seq<char>, meta_host: Seq<char>) -> bool {
    if host.len() == 0 {
        true
    } else {
        let want = clean_host_spec(host);
        let raw = match jget(alert, "host"@) {
            Some(v) => unwrap_spec(v),
            None => meta_host,
        };
        let got = clean_host_spec(raw);
        got.len() > 0 && (got == want || has_suffix(got, "."@ + want) || has_suffix(want, "."@ + got))
    }
}

/// Whether an alert concerns the selected host.
pub fn match_host(alert: &Json, host: &str) -> (r: bool)
    requires
        host@.len() > 0 && jget(alert@, "host"@) is None ==> alert_cuts_ok(alert@),
    ensures
        r == match_host_spec(alert@, host@, http_view(alert@).host),
{
    let hc = chars_of(host);
    if hc.len() == 0 {
        return true;
    }
    let want_s = clean_host(host);
    let want = chars_of(want_s.as_str());
    let raw: String = match get(alert, "host") {
        Some(v) => unwrap(v),
        None => http_of(alert).host,
    };
    let got_s = clean_host(raw.as_str());
    let got = chars_of(got_s.as_str());
    if got.len() == 0 {
        return false;
    }
    let mut dw = chars_of(".");
    append_chars(&mut dw, &want);
    let mut dg = chars_of(".");
    append_chars(&mut dg, &got);
    eq_chars(&got, &want) || ends_with_chars(&got, &dw) || ends_with_chars(&want, &dg)
}

} // verus!

verus! {

/// The value a filter table gives `key` ("" where absent).
pub open spec fn filter_value(filters: Seq<(Seq<char>, Seq<char>)>, key: Seq<char>) -> Seq<char>
    decreases filters.len(),
{
    if filters.len() == 0 {
        Seq::empty()
    } else if filters[0].0 == key {
        filters[0].1
    } else {
        filter_value(filters.drop_first(), key)
    }
}

/// The row field a filter applies to, as text ("" where absent).
pub open spec fn row_text(row: JsonV, key: Seq<char>) -> Seq<char> {
    match jget(row, key) {
        Some(v) => unwrap_spec(v),
        None => Seq::empty(),
    }
}

/// One filter: blank passes; `path` and `ip` match by substring, the others (`country`,
/// `action`, `method`) case-insensitively in full.
pub open spec fn filter_ok(row: JsonV, filters: Seq<(Seq<char>, Seq<char>)>, key: Seq<char>) -> bool {
    let want = trim(filter_value(filters, key));
    let got = row_text(row, key);
    want.len() == 0 || (if key == "path"@ || key == "ip"@ {
        contains(got, want)
    } else {
        lower(got) == lower(want)
    })
}

/// What `match_filters` answers: the row passes the `ip`, `path`, `country`, `action` and
/// `method` filters.
pub open spec fn match_filters_spec(row: JsonV, filters: Seq<(Seq<char>, Seq<char>)>) -> bool {
    filter_ok(row, filters, "ip"@) && filter_ok(row, filters, "path"@) && filter_ok(row, filters, "country"@)
        && filter_ok(row, filters, "action"@) && filter_ok(row, filters, "method"@)
}

/// The value a filter table gives `key`.
fn filter_value_exec(filters: &Vec<(String, String)>, key: &str) -> (r: Vec<char>)
    ensures
        r@ == filter_value(pviews(filters@), key@),
{
    let ghost all = pviews(filters@);
    let k = chars_of(key);
    let mut i: usize = 0;
    assert(all.subrange(0, all.len() as int) =~= all);
    while i < filters.len()
        invariant
            i <= filters@.len() == all.len(),
            all == pviews(filters@),
            k@ == key@,
            filter_value(all, key@) == filter_value(all.subrange(i as int, all.len() as int), key@),
        decreases filters.len() - i,
    {
        let ghost rest = all.subrange(i as int, all.len() as int);
        assert(rest[0] == (filters@[i as int].0@, filters@[i as int].1@));
        assert(rest.drop_first() =~= all.subrange(i + 1, all.len() as int));
        let c = chars_of(filters[i].0.as_str());
        if eq_chars(&c, &k) {
            return chars_of(filters[i].1.as_str());
        }
        i = i + 1;
    }
    Vec::new()
}

/// One filter.
fn filter_ok_exec(row: &Json, filters: &Vec<(String, String)>, key: &str) -> (r: bool)
    ensures
        r == filter_ok(row@, pviews(filters@), key@),
{
    let w = filter_value_exec(filters, key);
    let want = trim_chars(&w);
    if want.len() == 0 {
        return true;
    }
    let got: Vec<char> = match get(row, key) {
        Some(v) => {
            let u = unwrap(v);
            chars_of(u.as_str())
        },
        None => Vec::new(),
    };
    let kc = chars_of(key);
    let p = chars_of("path");
    let ip = chars_of("ip");
    if eq_chars(&kc, &p) || eq_chars(&kc, &ip) {
        contains_chars(&got, &want)
    } else {
        let lg = lower_chars(&got);
        let lw = lower_chars(&want);
        eq_chars(&lg, &lw)
    }
}

/// Whether a row passes the operator's filters.
pub fn match_filters(row: &Json, filters: &Vec<(String, String)>) -> (r: bool)
    ensures
        r == match_filters_spec(row@, pviews(filters@)),
{
    filter_ok_exec(row, filters, "ip") && filter_ok_exec(row, filters, "path")
        && filter_ok_exec(row, filters, "country") && filter_ok_exec(row, filters, "action")
        && filter_ok_exec(row, filters, "method")
}

/// A counter with `key` counted once more (an empty key is not counted).
pub open spec fn bump_spec(c: Seq<(Seq<char>, int)>, key: Seq<char>) -> Seq<(Seq<char>, int)> {
    if key.len() == 0 {
        c
    } else if exists|i: int| 0 <= i < c.len() && #[trigger] c[i].0 == key {
        let i = key_pos(c, key);
        c.update(i, (key, c[i].1 + 1))
    } else {
        c.push((key, 1))
    }
}

/// A position of `key` in a counter.
pub open spec fn key_pos(c: Seq<(Seq<char>, int)>, key: Seq<char>) -> int {
    choose|i: int| 0 <= i < c.len() && #[trigger] c[i].0 == key
}

/// The view of a counter.
pub open spec fn cviews(c: Seq<(String, i64)>) -> Seq<(Seq<char>, int)> {
    c.map_values(|p: (String, i64)| (p.0@, p.1 as int))
}

/// No key occurs twice.
pub open spec fn keys_distinct(c: Seq<(Seq<char>, int)>) -> bool {
    forall|i: int, j: int| 0 <= i < c.len() && 0 <= j < c.len() && i != j ==> #[trigger] c[i].0 != #[trigger] c[j].0
}

/// Counts `key` once more (an empty key is not counted).
pub fn bump(counter: &mut Vec<(String, i64)>, key: &str)
    requires
        keys_distinct(cviews(old(counter)@)),
        forall|i: int| 0 <= i < old(counter)@.len() ==> (#[trigger] old(counter)@[i]).1 < i64::MAX,
    ensures
        keys_distinct(cviews(final(counter)@)),
        cviews(final(counter)@) == bump_spec(cviews(old(counter)@), key@),
{
    let ghost c0 = cviews(counter@);
    let k = chars_of(key);
    if k.len() == 0 {
        return;
    }
    let mut i: usize = 0;
    while i < counter.len()
        invariant
            i <= counter@.len(),
            counter@ == old(counter)@,
            c0 == cviews(counter@),
            k@ == key@,
            k@.len() > 0,
            keys_distinct(c0),
            forall|m: int| 0 <= m < counter@.len() ==> (#[trigger] counter@[m]).1 < i64::MAX,
            forall|m: int| 0 <= m < i ==> #[trigger] c0[m].0 != key@,
        decreases counter.len() - i,
    {
        let c = chars_of(counter[i].0.as_str());
        if eq_chars(&c, &k) {
            let n = counter[i].1;
            let name = counter[i].0.clone();
            proof {
                assert(c0[i as int].0 == key@);
                let w = key_pos(c0, key@);
                if w != i {
                    assert(c0[w].0 != c0[i as int].0);
                }
            }
            counter.set(i, (name, n + 1));
            assert(cviews(counter@) =~= c0.update(i as int, (key@, c0[i as int].1 + 1)));
            proof {
                let w = key_pos(c0, key@);
                assert(w == i);
                assert(bump_spec(c0, key@) == c0.update(i as int, (key@, c0[i as int].1 + 1)));
            }
            return;
        }
        i = i + 1;
    }
    counter.push((String::from_str(key), 1));
    assert(cviews(counter@) =~= c0.push((key@, 1)));
}

} // verus!

verus! {

/// A count ranks before another: higher count, or equal count and smaller label.
pub open spec fn ranks_before(a: (Seq<char>, int), b: (Seq<char>, int)) -> bool {
    a.1 > b.1 || (a.1 == b.1 && crate::text::str_lt(a.0, b.0))
}

/// `x` inserted into `s` before the first entry it ranks before.
pub open spec fn insert_ranked(s: Seq<(Seq<char>, int)>, x: (Seq<char>, int)) -> Seq<(Seq<char>, int)>
    decreases s.len(),
{
    if s.len() == 0 {
        seq![x]
    } else if ranks_before(x, s[0]) {
        seq![x] + s
    } else {
        seq![s[0]] + insert_ranked(s.drop_first(), x)
    }
}

/// The counts ranked (highest first, ties by label), by insertion in counter order.
pub open spec fn ranked(c: Seq<(Seq<char>, int)>) -> Seq<(Seq<char>, int)>
    decreases c.len(),
{
    if c.len() == 0 {
        Seq::empty()
    } else {
        insert_ranked(ranked(c.drop_last()), c.last())
    }
}

/// The entries with a non-empty label.
pub open spec fn labeled(s: Seq<(Seq<char>, int)>) -> Seq<(Seq<char>, int)>
    decreases s.len(),
{
    if s.len() == 0 {
        s
    } else if s.last().0.len() > 0 {
        labeled(s.drop_last()).push(s.last())
    } else {
        labeled(s.drop_last())
    }
}

/// What `top` answers (before percentages): the `n` highest counts with a label.
pub open spec fn top_spec(c: Seq<(Seq<char>, int)>, n: nat) -> Seq<(Seq<char>, int)> {
    let l = labeled(ranked(c));
    if l.len() <= n { l } else { l.take(n as int) }
}

/// Inserting at the first entry `x` ranks before.
proof fn lemma_insert_at(s: Seq<(Seq<char>, int)>, x: (Seq<char>, int), j: int)
    requires
        0 <= j <= s.len(),
        forall|k: int| 0 <= k < j ==> !ranks_before(x, #[trigger] s[k]),
        j < s.len() ==> ranks_before(x, s[j]),
    ensures
        insert_ranked(s, x) == s.take(j) + seq![x] + s.skip(j),
    decreases j,
{
    if j == 0 {
        assert(s.take(0) + seq![x] + s.skip(0) =~= seq![x] + s);
        if s.len() == 0 {
            assert(seq![x] + s =~= seq![x]);
        }
    } else {
        lemma_insert_at(s.drop_first(), x, j - 1);
        assert(s.take(j) + seq![x] + s.skip(j) =~= seq![s[0]] + (s.drop_first().take(j - 1) + seq![x] + s.drop_first().skip(j - 1)));
    }
}

/// Whether count `a` ranks before `b`.
fn ranks_before_exec(a: &(String, i64), b: &(String, i64)) -> (r: bool)
    ensures
        r == ranks_before((a.0@, a.1 as int), (b.0@, b.1 as int)),
{
    if a.1 > b.1 {
        return true;
    }
    if a.1 < b.1 {
        return false;
    }
    let x = chars_of(a.0.as_str());
    let y = chars_of(b.0.as_str());
    crate::text::str_lt_exec(&x, &y)
}

/// The `n` highest counts with a label, highest first (ties by label).
pub fn top(counter: &Vec<(String, i64)>, n: usize) -> (r: Vec<(String, i64)>)
    ensures
        cviews(r@) == top_spec(cviews(counter@), n as nat),
{
    let ghost all = cviews(counter@);
    let mut sorted: Vec<(String, i64)> = Vec::new();
    let mut i: usize = 0;
    assert(all.take(0) =~= Seq::<(Seq<char>, int)>::empty());
    assert(cviews(sorted@) =~= Seq::<(Seq<char>, int)>::empty());
    while i < counter.len()
        invariant
            i <= counter@.len() == all.len(),
            all == cviews(counter@),
            cviews(sorted@) == ranked(all.take(i as int)),
        decreases counter.len() - i,
    {
        assert(all.take(i + 1).drop_last() =~= all.take(i as int));
        let x = (counter[i].0.clone(), counter[i].1);
        let ghost xv = (x.0@, x.1 as int);
        assert(xv == all.take(i + 1).last());
        let ghost s = cviews(sorted@);
        let mut j: usize = 0;
        while j < sorted.len() && !ranks_before_exec(&x, &sorted[j])
            invariant
                j <= sorted@.len(),
                s == cviews(sorted@),
                xv == (x.0@, x.1 as int),
                forall|k: int| 0 <= k < j ==> !ranks_before(xv, #[trigger] s[k]),
            decreases sorted.len() - j,
        {
            j = j + 1;
        }
        proof {
            lemma_insert_at(s, xv, j as int);
        }
        sorted.insert(j, x);
        assert(cviews(sorted@) =~= s.take(j as int) + seq![xv] + s.skip(j as int));
        i = i + 1;
    }
    assert(all.take(counter.len() as int) =~= all);
    let ghost srt = cviews(sorted@);
    let mut out: Vec<(String, i64)> = Vec::new();
    let mut k: usize = 0;
    assert(srt.take(0) =~= Seq::<(Seq<char>, int)>::empty());
    assert(cviews(out@) =~= Seq::<(Seq<char>, int)>::empty());
    while k < sorted.len()
        invariant
            k <= sorted@.len() == srt.len(),
            srt == cviews(sorted@),
            cviews(out@) == labeled(srt.take(k as int)),
        decreases sorted.len() - k,
    {
        assert(srt.take(k + 1).drop_last() =~= srt.take(k as int));
        let lc = chars_of(sorted[k].0.as_str());
        if lc.len() > 0 {
            let ghost before = cviews(out@);
            out.push((sorted[k].0.clone(), sorted[k].1));
            assert(cviews(out@) =~= before.push(srt[k as int]));
        }
        k = k + 1;
    }
    assert(srt.take(srt.len() as int) =~= srt);
    if out.len() > n {
        out.truncate(n);
        assert(cviews(out@) =~= labeled(srt).take(n as int));
    }
    out
}

} // verus!

verus! {

/// Well-known crawlers.
pub const BOT_PATTERN: &'static str = "(?i)(googlebot|bingbot|yandexbot|applebot|gptbot|claudebot|bytespider|semrush|ahrefs)";

/// Scanner tools named in a user agent.
pub const SCANNER_UA_PATTERN: &'static str = "(?i)(?:^|[^a-z])nmap(?:[^a-z]|$)|(?:^|[^a-z])hping3?(?:[^a-z]|$)|(?:^|[^a-z])masscan(?:[^a-z]|$)|acunetix|owasp[\\s-]?zap|(?:^|[^a-z])zaproxy(?:[^a-z]|$)|(?:^|[^a-z])zap/\\d|(?:^|[^a-z])nessus(?:[^a-z]|$)|openvas|(?:^|[^a-z])greenbone(?:[^a-z]|$)|(?:^|[^a-z])nikto(?:[^a-z]|$)|(?:^|[^a-z])sqlmap(?:[^a-z]|$)|(?:^|[^a-z])nuclei(?:[^a-z]|$)|(?:^|[^a-z])wpscan(?:[^a-z]|$)|(?:^|[^a-z])burp(?:suite)?(?:[^a-z]|$)|(?:^|[^a-z])gobuster(?:[^a-z]|$)|(?:^|[^a-z])ffuf(?:[^a-z]|$)|dirbuster|(?:^|[^a-z])jscrawler(?:[^a-z]|$)";

/// Scanner scenarios.
pub const SCANNER_SCENARIO_PATTERN: &'static str = "(?i)probing|scanner|http-crawl|http-scan|bad-user-agent|open-proxy|env-access|git-config|uploads-listing";

/// Paths probed for secrets.
pub const SECRET_SCAN_PATH_PATTERN: &'static str = "(?i)(?:^|/)(?:\\.env|\\.git(?:/|$)|\\.aws(?:/|$)|\\.docker(?:/|$))";

/// `s` with its first character uppercased where it is an ASCII lowercase letter.
pub open spec fn cap_first(s: Seq<char>) -> Seq<char> {
    if s.len() > 0 && 'a' <= s[0] && s[0] <= 'z' {
        s.update(0, ((s[0] as int) - 32) as char)
    } else {
        s
    }
}

/// What `classify_ua` answers: browser, operating system and device of a user agent
/// (all "" for an empty one).
#[verifier::opaque]
pub open spec fn classify_ua_spec(ua: Seq<char>) -> (Seq<char>, Seq<char>, Seq<char>) {
    let text = unwrap_str(ua);
    let low = lower(text);
    if text.len() == 0 {
        (Seq::empty(), Seq::empty(), Seq::empty())
    } else {
        let browser = match regex_first(BOT_PATTERN@, text) {
            Some(b) => cap_first(b),
            None => if contains(low, "edg/"@) {
                "Edge"@
            } else if contains(low, "chrome"@) && !contains(low, "chromium"@) {
                if contains(low, "mobile"@) { "ChromeMobile"@ } else { "Chrome"@ }
            } else if contains(low, "firefox"@) {
                "Firefox"@
            } else if contains(low, "safari"@) && !contains(low, "chrome"@) {
                "Safari"@
            } else {
                "Unknown/Other"@
            },
        };
        let os = if contains(low, "android"@) {
            "Android"@
        } else if contains(low, "iphone"@) || contains(low, "ipad"@) || contains(low, "ios"@) {
            "iOS"@
        } else if contains(low, "mac os"@) || contains(low, "macintosh"@) {
            "MacOSX"@
        } else if contains(low, "windows"@) {
            "Windows"@
        } else if contains(low, "linux"@) {
            "Linux"@
        } else {
            "Unknown/Other"@
        };
        let device = if contains(low, "ipad"@) || contains(low, "tablet"@) {
            "Tablet"@
        } else if contains(low, "mobile"@) || contains(low, "iphone"@) || contains(low, "android"@) {
            "Mobile"@
        } else {
            "Desktop"@
        };
        (browser, os, device)
    }
}

/// Whether `h` contains the text `n`.
fn mentions(h: &Vec<char>, n: &str) -> (r: bool)
    ensures
        r == contains(h@, n@),
{
    let c = chars_of(n);
    contains_chars(h, &c)
}

/// Browser, operating system and device of a user agent.
pub fn classify_ua(ua: &str) -> (r: (String, String, String))
    ensures
        (r.0@, r.1@, r.2@) == classify_ua_spec(ua@),
{
    reveal(classify_ua_spec);
    let text = unwrap_text(ua);
    let low = lower_chars(&text);
    if text.len() == 0 {
        return (String::new(), String::new(), String::new());
    }
    let ts = string_of(&text);
    let browser: String = match re_find(BOT_PATTERN, ts.as_str()) {
        Some(b) => {
            let mut bc = chars_of(b.as_str());
            if bc.len() > 0 && 'a' <= bc[0] && bc[0] <= 'z' {
                let up = upper_ascii(bc[0]);
                bc.set(0, up);
            }
            string_of(&bc)
        },
        None => if mentions(&low, "edg/") {
            String::from_str("Edge")
        } else if mentions(&low, "chrome") && !mentions(&low, "chromium") {
            if mentions(&low, "mobile") {
                String::from_str("ChromeMobile")
            } else {
                String::from_str("Chrome")
            }
        } else if mentions(&low, "firefox") {
            String::from_str("Firefox")
        } else if mentions(&low, "safari") && !mentions(&low, "chrome") {
            String::from_str("Safari")
        } else {
            String::from_str("Unknown/Other")
        },
    };
    let os = if mentions(&low, "android") {
        String::from_str("Android")
    } else if mentions(&low, "iphone") || mentions(&low, "ipad") || mentions(&low, "ios") {
        String::from_str("iOS")
    } else if mentions(&low, "mac os") || mentions(&low, "macintosh") {
        String::from_str("MacOSX")
    } else if mentions(&low, "windows") {
        String::from_str("Windows")
    } else if mentions(&low, "linux") {
        String::from_str("Linux")
    } else {
        String::from_str("Unknown/Other")
    };
    let device = if mentions(&low, "ipad") || mentions(&low, "tablet") {
        String::from_str("Tablet")
    } else if mentions(&low, "mobile") || mentions(&low, "iphone") || mentions(&low, "android") {
        String::from_str("Mobile")
    } else {
        String::from_str("Desktop")
    };
    (browser, os, device)
}

/// The uppercase of an ASCII lowercase letter.
fn upper_ascii(c: char) -> (r: char)
    requires
        'a' <= c <= 'z',
    ensures
        r == ((c as int) - 32) as char,
{
    let n = (c as u32) - 32;
    let b: u8 = n as u8;
    b as char
}

/// What `is_scanner_event` answers: a scanner user agent, a scanning scenario or a
/// secret-file path.
pub open spec fn scanner_spec(ua: Seq<char>, scenario: Seq<char>, path: Seq<char>) -> bool {
    regex_match(SCANNER_UA_PATTERN@, ua) || regex_match(SCANNER_SCENARIO_PATTERN@, scenario)
        || regex_match(SECRET_SCAN_PATH_PATTERN@, path)
}

/// Whether an event is scanner activity.
pub fn is_scanner_event(ua: &str, scenario: &str, path: &str) -> (r: bool)
    ensures
        r == scanner_spec(ua@, scenario@, path@),
{
    re_is_match(SCANNER_UA_PATTERN, ua) || re_is_match(SCANNER_SCENARIO_PATTERN, scenario)
        || re_is_match(SECRET_SCAN_PATH_PATTERN, path)
}

/// Integer division rounding toward zero (Rust's `/` on integers).
pub open spec fn tdiv(a: int, b: int) -> int {
    if a >= 0 { a / b } else { -((-a) / b) }
}

/// What `hour_bucket` answers: which of the last 24 hourly buckets (23 the current one) an
/// event at `dt` falls in, by whole hours before `now` (rounded toward zero).
pub open spec fn hour_bucket_spec(dt: Option<int>, now: int) -> Option<int> {
    match dt {
        None => None,
        Some(t) => {
            let hours = tdiv(now - t, 3600);
            if hours < 0 || hours > 23 { None } else { Some(23 - hours) }
        },
    }
}

/// The hourly bucket of an event time (Unix seconds) relative to `now`.
pub fn hour_bucket(dt: Option<i64>, now: i64) -> (r: Option<usize>)
    ensures
        match hour_bucket_spec(match dt { Some(t) => Some(t as int), None => None }, now as int) {
            Some(b) => r == Some(b as usize) && b < 24,
            None => r is None,
        },
{
    let t = match dt {
        Some(t) => t,
        None => return None,
    };
    let diff: i128 = now as i128 - t as i128;
    let hours: i128 = if diff >= 0 { diff / 3600 } else { -((-diff) / 3600) };
    if hours < 0 || hours > 23 {
        return None;
    }
    Some((23 - hours) as usize)
}

/// What `within_window_hours` answers: the event is at most `hours` hours old and not in the
/// future; a missing time is outside.
pub open spec fn within_window_spec(dt: Option<int>, now: int, hours: int) -> bool {
    match dt {
        None => false,
        Some(t) => {
            let age = now - t;
            let cap = if hours * 3600 > i64::MAX { i64::MAX as int } else if hours * 3600 < i64::MIN { i64::MIN as int } else { hours * 3600 };
            age >= 0 && age <= cap
        },
    }
}

/// Whether an event time (Unix seconds) falls in the last `hours` hours (inclusive).
pub fn within_window_hours(dt: Option<i64>, now: i64, hours: i64) -> (r: bool)
    ensures
        r == within_window_spec(match dt { Some(t) => Some(t as int), None => None }, now as int, hours as int),
{
    let t = match dt {
        Some(t) => t,
        None => return false,
    };
    let age: i128 = now as i128 - t as i128;
    let prod: i128 = hours as i128 * 3600;
    let cap: i128 = if prod > i64::MAX as i128 { i64::MAX as i128 } else if prod < i64::MIN as i128 { i64::MIN as i128 } else { prod };
    age >= 0 && age <= cap
}

} // verus!

verus! {

/// A field of a row read as text (`unwrap`), else `dflt`.
pub open spec fn text_or(a: JsonV, k: Seq<char>, dflt: Seq<char>) -> Seq<char> {
    match jget(a, k) {
        Some(v) => unwrap_spec(v),
        None => dflt,
    }
}

/// The dashboard row of an enriched alert.
pub open spec fn row_spec(a: JsonV) -> JsonV {
    let h = http_view(a);
    let src = source_of(a);
    let ip = match (match jget(src, "ip"@) {
        Some(v) => Some(v),
        None => jget(src, "value"@),
    }) {
        Some(v) => unwrap_spec(v),
        None => Seq::empty(),
    };
    let cn = upper(
        match jget(a, "cn"@) {
            Some(v) => unwrap_spec(v),
            None => match (match jget(src, "cn"@) {
                Some(v) => Some(v),
                None => jget(src, "country"@),
            }) {
                Some(v) => unwrap_spec(v),
                None => Seq::empty(),
            },
        },
    );
    JsonV::Object(
        seq![
            ("when"@, match jget(a, "created_at"@) {
                Some(v) => v,
                None => JsonV::Str(Seq::empty()),
            }),
            ("ip"@, JsonV::Str(ip)),
            ("host"@, JsonV::Str(text_or(a, "host"@, h.host))),
            ("path"@, JsonV::Str(text_or(a, "path"@, h.path))),
            ("country"@, JsonV::Str(cn)),
            ("action"@, JsonV::Str(text_or(a, "action"@, "Alert"@))),
            ("service"@, JsonV::Str(text_or(a, "service"@, h.service))),
            ("method"@, JsonV::Str(h.method)),
            ("ua"@, JsonV::Str(h.ua)),
            ("ja4h"@, JsonV::Str(h.ja4h)),
            ("http_version"@, JsonV::Str(h.http_version)),
            ("status"@, JsonV::Str(h.status)),
            ("asn"@, JsonV::Str(h.asn)),
            ("zones"@, JsonV::Str(h.zones)),
            ("data"@, JsonV::Str(h.data)),
            ("rule_ids"@, JsonV::Str(h.rule_ids)),
            ("scenario"@, JsonV::Str(text_or(a, "scenario"@, Seq::empty()))),
            ("scanner"@, JsonV::Str(Seq::empty())),
        ],
    )
}

/// A row field read as text.
fn text_or_exec(a: &Json, k: &str, dflt: String) -> (r: String)
    ensures
        r@ == text_or(a@, k@, dflt@),
{
    match get(a, k) {
        Some(v) => unwrap(v),
        None => dflt,
    }
}

/// The source address of an alert row.
fn row_ip(src: &Json) -> (r: String)
    ensures
        r@ == match (match jget(src@, "ip"@) {
            Some(v) => Some(v),
            None => jget(src@, "value"@),
        }) {
            Some(v) => unwrap_spec(v),
            None => Seq::empty(),
        },
{
    match get(src, "ip") {
        Some(v) => unwrap(v),
        None => match get(src, "value") {
            Some(v) => unwrap(v),
            None => String::new(),
        },
    }
}

/// The country of an alert row.
fn row_country(a: &Json, src: &Json) -> (r: Vec<char>)
    ensures
        r@ == upper(
            match jget(a@, "cn"@) {
                Some(v) => unwrap_spec(v),
                None => match (match jget(src@, "cn"@) {
                    Some(v) => Some(v),
                    None => jget(src@, "country"@),
                }) {
                    Some(v) => unwrap_spec(v),
                    None => Seq::empty(),
                },
            },
        ),
{
    let c: String = match get(a, "cn") {
        Some(v) => unwrap(v),
        None => match get(src, "cn") {
            Some(v) => unwrap(v),
            None => match get(src, "country") {
                Some(v) => unwrap(v),
                None => String::new(),
            },
        },
    };
    let cc = chars_of(c.as_str());
    upper_chars(&cc)
}

/// A JSON string entry.
fn entry(k: &str, v: String) -> (r: (String, Json))
    ensures
        r.0@ == k@,
        r.1@ == JsonV::Str(v@),
{
    (String::from_str(k), Json::Str(v))
}

/// Builds the dashboard row of an enriched alert.
#[verifier::rlimit(60)]
pub fn row_of(a: &Json) -> (r: Json)
    requires
        alert_cuts_ok(a@),
    ensures
        r@ == row_spec(a@),
{
    let h = http_of(a);
    let src = source_exec(a);
    let ip = row_ip(&src);
    let cn = row_country(a, &src);
    let when = match get(a, "created_at") {
        Some(v) => clone_json(v),
        None => Json::Str(String::new()),
    };
    let mut f: Vec<(String, Json)> = Vec::new();
    f.push((String::from_str("when"), when));
    f.push(entry("ip", ip));
    f.push(entry("host", text_or_exec(a, "host", h.host.clone())));
    f.push(entry("path", text_or_exec(a, "path", h.path.clone())));
    f.push(entry("country", string_of(&cn)));
    f.push(entry("action", text_or_exec(a, "action", String::from_str("Alert"))));
    f.push(entry("service", text_or_exec(a, "service", h.service.clone())));
    f.push(entry("method", h.method.clone()));
    f.push(entry("ua", h.ua.clone()));
    f.push(entry("ja4h", h.ja4h.clone()));
    f.push(entry("http_version", h.http_version.clone()));
    f.push(entry("status", h.status.clone()));
    f.push(entry("asn", h.asn.clone()));
    f.push(entry("zones", h.zones.clone()));
    f.push(entry("data", h.data.clone()));
    f.push(entry("rule_ids", h.rule_ids.clone()));
    f.push(entry("scenario", text_or_exec(a, "scenario", String::new())));
    f.push(entry("scanner", String::new()));
    let r = Json::Object(f);
    proof {
        crate::json::lemma_object_fview(r);
        assert(fview(f@) =~= row_spec(a@)->Object_0);
    }
    r
}

} // verus!

verus! {

/// What happens to one alert on the way to the rows: left out, dropped as outside the
/// time window, or kept as a row.
pub enum RowStep {
    Ignore,
    OutOfWindow,
    Keep(JsonV),
}

/// The step of one alert: a non-object, an alert for another host or one failing the
/// filters is left out; one outside the last 24 hours (or without a time) is dropped and
/// counted; else its row is kept.
#[verifier::opaque]
pub open spec fn alert_step(
    a: JsonV,
    dt: Option<int>,
    now: int,
    host: Seq<char>,
    filters: Seq<(Seq<char>, Seq<char>)>,
) -> RowStep {
    if !(a is Object) {
        RowStep::Ignore
    } else {
        let e = enrich_spec(a);
        if !match_host_spec(e, host, http_view(e).host) {
            RowStep::Ignore
        } else if !within_window_spec(dt, now, 24) {
            RowStep::OutOfWindow
        } else if !match_filters_spec(row_spec(e), filters) {
            RowStep::Ignore
        } else {
            RowStep::Keep(row_spec(e))
        }
    }
}

/// The rows of the alerts shown, with their times, and how many alerts were dropped for
/// falling outside the window.
pub open spec fn rows_spec(
    alerts: Seq<JsonV>,
    times: Seq<Option<int>>,
    now: int,
    host: Seq<char>,
    filters: Seq<(Seq<char>, Seq<char>)>,
) -> (Seq<JsonV>, Seq<Option<int>>, nat)
    decreases alerts.len(),
{
    if alerts.len() == 0 {
        (Seq::empty(), Seq::empty(), 0)
    } else {
        let (r, t, s) = rows_spec(alerts.drop_last(), times.drop_last(), now, host, filters);
        match alert_step(alerts.last(), times.last(), now, host, filters) {
            RowStep::Ignore => (r, t, s),
            RowStep::OutOfWindow => (r, t, s + 1),
            RowStep::Keep(row) => (r.push(row), t.push(times.last()), s),
        }
    }
}

/// An alert's step, computed.
pub enum StepOut {
    Ignore,
    OutOfWindow,
    Keep(Json),
}

/// Works out what happens to one alert.
#[verifier::rlimit(40)]
fn alert_step_exec(a: &Json, dt: Option<i64>, now: i64, host: &str, filters: &Vec<(String, String)>) -> (r: StepOut)
    requires
        a@ is Object ==> alert_cuts_ok(a@),
    ensures
        match alert_step(a@, match dt { Some(x) => Some(x as int), None => None }, now as int, host@, pviews(filters@)) {
            RowStep::Ignore => r is Ignore,
            RowStep::OutOfWindow => r is OutOfWindow,
            RowStep::Keep(row) => r matches StepOut::Keep(j) && j@ == row,
        },
{
    reveal(alert_step);
    if !is_object(a) {
        return StepOut::Ignore;
    }
    let mut e = clone_json(a);
    enrich_alert(&mut e);
    proof {
        lemma_enrich_keeps_meta(a@);
    }
    if !match_host(&e, host) {
        return StepOut::Ignore;
    }
    if !within_window_hours(dt, now, 24) {
        return StepOut::OutOfWindow;
    }
    let row = row_of(&e);
    if !match_filters(&row, filters) {
        return StepOut::Ignore;
    }
    StepOut::Keep(row)
}

/// The views of optional times.
pub open spec fn tviews(t: Seq<Option<i64>>) -> Seq<Option<int>> {
    t.map_values(|o: Option<i64>| match o {
        Some(x) => Some(x as int),
        None => None,
    })
}

/// Builds the dashboard rows of the alerts (`times[i]` is the parsed time of `alerts[i]`,
/// in Unix seconds).
pub fn build_rows(
    alerts: &Vec<Json>,
    times: &Vec<Option<i64>>,
    now: i64,
    host: &str,
    filters: &Vec<(String, String)>,
) -> (r: (Vec<Json>, Vec<Option<i64>>, usize))
    requires
        times@.len() == alerts@.len(),
        forall|i: int| 0 <= i < alerts@.len() && #[trigger] alerts@[i]@ is Object ==> alert_cuts_ok(alerts@[i]@),
    ensures
        (jviews(r.0@), tviews(r.1@), r.2 as nat) == rows_spec(jviews(alerts@), tviews(times@), now as int, host@, pviews(filters@)),
        r.0@.len() == r.1@.len(),
{
    let ghost aa = jviews(alerts@);
    let ghost tt = tviews(times@);
    let mut rows: Vec<Json> = Vec::new();
    let mut ts: Vec<Option<i64>> = Vec::new();
    let mut skipped: usize = 0;
    let mut i: usize = 0;
    assert(aa.take(0) =~= Seq::<JsonV>::empty());
    assert(tt.take(0) =~= Seq::<Option<int>>::empty());
    assert(jviews(rows@) =~= Seq::<JsonV>::empty());
    assert(tviews(ts@) =~= Seq::<Option<int>>::empty());
    while i < alerts.len()
        invariant
            i <= alerts@.len() == aa.len() == tt.len() == times@.len(),
            aa == jviews(alerts@),
            tt == tviews(times@),
            forall|k: int| 0 <= k < alerts@.len() && #[trigger] alerts@[k]@ is Object ==> alert_cuts_ok(alerts@[k]@),
            skipped <= i,
            rows@.len() == ts@.len(),
            (jviews(rows@), tviews(ts@), skipped as nat) == rows_spec(aa.take(i as int), tt.take(i as int), now as int, host@, pviews(filters@)),
        decreases alerts.len() - i,
    {
        assert(aa.take(i + 1).drop_last() =~= aa.take(i as int));
        assert(tt.take(i + 1).drop_last() =~= tt.take(i as int));
        assert(aa.take(i + 1).last() == alerts@[i as int]@);
        assert(tt.take(i + 1).last() == tt[i as int]);
        match alert_step_exec(&alerts[i], times[i], now, host, filters) {
            StepOut::Ignore => {},
            StepOut::OutOfWindow => {
                skipped = skipped + 1;
            },
            StepOut::Keep(row) => {
                let ghost rb = jviews(rows@);
                let ghost tb = tviews(ts@);
                let ghost rv = row@;
                rows.push(row);
                ts.push(times[i]);
                assert(jviews(rows@) =~= rb.push(rv));
                assert(tviews(ts@) =~= tb.push(tt[i as int]));
            },
        }
        i = i + 1;
    }
    assert(aa.take(alerts.len() as int) =~= aa);
    assert(tt.take(alerts.len() as int) =~= tt);
    (rows, ts, skipped)
}

} // verus!

verus! {

/// The text a row counts under `key`: the string field, cut to `cut` characters where given.
pub open spec fn count_key(row: JsonV, key: Seq<char>, cut: Option<nat>) -> Seq<char> {
    let s = match jstr(jget(row, key)) {
        Some(s) => s,
        None => Seq::empty(),
    };
    match cut {
        Some(n) => crate::text::take_at_most(s, n),
        None => s,
    }
}

/// How often each non-empty text occurs under `key` in the rows, in order of first
/// occurrence.
pub open spec fn count_spec(rows: Seq<JsonV>, key: Seq<char>, cut: Option<nat>) -> Seq<(Seq<char>, int)>
    decreases rows.len(),
{
    if rows.len() == 0 {
        Seq::empty()
    } else {
        bump_spec(count_spec(rows.drop_last(), key, cut), count_key(rows.last(), key, cut))
    }
}

/// Some row has a non-empty string under `key`.
pub open spec fn any_text(rows: Seq<JsonV>, key: Seq<char>) -> bool {
    exists|i: int| 0 <= i < rows.len() && #[trigger] count_key(rows[i], key, None).len() > 0
}

/// Bumping keeps every count at most one above its bound.
proof fn lemma_bump_bound(c: Seq<(Seq<char>, int)>, key: Seq<char>, n: int)
    requires
        n >= 0,
        forall|i: int| 0 <= i < c.len() ==> 0 < #[trigger] c[i].1 <= n,
    ensures
        forall|i: int| 0 <= i < bump_spec(c, key).len() ==> 0 < #[trigger] bump_spec(c, key)[i].1 <= n + 1,
{
    let b = bump_spec(c, key);
    if key.len() > 0 && exists|i: int| 0 <= i < c.len() && #[trigger] c[i].0 == key {
        let w = key_pos(c, key);
        assert(0 <= w < c.len());
        assert(b.len() == c.len());
        assert forall|i: int| 0 <= i < b.len() implies 0 < #[trigger] b[i].1 <= n + 1 by {
            if i == w {
                assert(b[i] == (key, c[w].1 + 1));
            } else {
                assert(b[i] == c[i]);
            }
        }
    } else if key.len() > 0 {
        assert forall|i: int| 0 <= i < b.len() implies 0 < #[trigger] b[i].1 <= n + 1 by {
            if i < c.len() {
                assert(b[i] == c[i]);
            }
        }
    }
}

/// Counts the texts of the rows under `key`.
pub fn count_field(rows: &Vec<Json>, key: &str, cut: Option<usize>) -> (r: Vec<(String, i64)>)
    requires
        rows@.len() < i64::MAX,
    ensures
        cviews(r@) == count_spec(jviews(rows@), key@, match cut { Some(n) => Some(n as nat), None => None }),
        keys_distinct(cviews(r@)),
{
    let ghost all = jviews(rows@);
    let ghost c = match cut { Some(n) => Some(n as nat), None => None::<nat> };
    let mut out: Vec<(String, i64)> = Vec::new();
    let mut i: usize = 0;
    assert(all.take(0) =~= Seq::<JsonV>::empty());
    assert(cviews(out@) =~= Seq::<(Seq<char>, int)>::empty());
    while i < rows.len()
        invariant
            i <= rows@.len() == all.len() < i64::MAX,
            all == jviews(rows@),
            c == match cut { Some(n) => Some(n as nat), None => None::<nat> },
            cviews(out@) == count_spec(all.take(i as int), key@, c),
            keys_distinct(cviews(out@)),
            forall|k: int| 0 <= k < out@.len() ==> 0 < (#[trigger] out@[k]).1 <= i,
        decreases rows.len() - i,
    {
        assert(all.take(i + 1).drop_last() =~= all.take(i as int));
        assert(all.take(i + 1).last() == rows@[i as int]@);
        let s: String = match get_str(&rows[i], key) {
            Some(x) => x.clone(),
            None => String::new(),
        };
        let k: String = match cut {
            Some(n) => {
                let sc = chars_of(s.as_str());
                string_of(&crate::text::take_chars(&sc, n))
            },
            None => s,
        };
        proof {
            assert(forall|m: int| 0 <= m < cviews(out@).len() ==> 0 < #[trigger] cviews(out@)[m].1 <= i);
            lemma_bump_bound(cviews(out@), k@, i as int);
        }
        bump(&mut out, k.as_str());
        proof {
            assert forall|m: int| 0 <= m < out@.len() implies 0 < (#[trigger] out@[m]).1 <= i + 1 by {
                assert(cviews(out@)[m].1 == out@[m].1);
            }
        }
        i = i + 1;
    }
    assert(all.take(rows.len() as int) =~= all);
    out
}

/// Whether some row has a non-empty string under `key`.
pub fn any_text_exec(rows: &Vec<Json>, key: &str) -> (r: bool)
    ensures
        r == any_text(jviews(rows@), key@),
{
    let ghost all = jviews(rows@);
    let mut i: usize = 0;
    while i < rows.len()
        invariant
            i <= rows@.len() == all.len(),
            all == jviews(rows@),
            forall|k: int| 0 <= k < i ==> #[trigger] count_key(all[k], key@, None).len() == 0,
        decreases rows.len() - i,
    {
        assert(all[i as int] == rows@[i as int]@);
        match get_str(&rows[i], key) {
            Some(x) => {
                let xc = chars_of(x.as_str());
                if xc.len() > 0 {
                    assert(count_key(all[i as int], key@, None).len() > 0);
                    return true;
                }
            },
            None => {},
        }
        i = i + 1;
    }
    false
}

/// The user agent of a row classified (browser, OS, device); all "" without one.
pub open spec fn row_ua_class(row: JsonV) -> (Seq<char>, Seq<char>, Seq<char>) {
    let ua = count_key(row, "ua"@, None);
    if ua.len() > 0 {
        classify_ua_spec(ua)
    } else {
        (Seq::empty(), Seq::empty(), Seq::empty())
    }
}

/// How often each browser (`which` 0), OS (1) or device (2) occurs among the rows' user
/// agents.
pub open spec fn ua_count_spec(rows: Seq<JsonV>, which: int) -> Seq<(Seq<char>, int)>
    decreases rows.len(),
{
    if rows.len() == 0 {
        Seq::empty()
    } else {
        let k = row_ua_class(rows.last());
        bump_spec(ua_count_spec(rows.drop_last(), which), if which == 0 { k.0 } else if which == 1 { k.1 } else { k.2 })
    }
}

/// Counts browsers (`which` 0), operating systems (1) or devices (2) of the rows.
pub fn ua_counts(rows: &Vec<Json>, which: u8) -> (r: Vec<(String, i64)>)
    requires
        rows@.len() < i64::MAX,
    ensures
        cviews(r@) == ua_count_spec(jviews(rows@), which as int),
        keys_distinct(cviews(r@)),
{
    let ghost all = jviews(rows@);
    let mut out: Vec<(String, i64)> = Vec::new();
    let mut i: usize = 0;
    assert(all.take(0) =~= Seq::<JsonV>::empty());
    assert(cviews(out@) =~= Seq::<(Seq<char>, int)>::empty());
    while i < rows.len()
        invariant
            i <= rows@.len() == all.len() < i64::MAX,
            all == jviews(rows@),
            cviews(out@) == ua_count_spec(all.take(i as int), which as int),
            keys_distinct(cviews(out@)),
            forall|k: int| 0 <= k < out@.len() ==> 0 < (#[trigger] out@[k]).1 <= i,
        decreases rows.len() - i,
    {
        assert(all.take(i + 1).drop_last() =~= all.take(i as int));
        assert(all.take(i + 1).last() == rows@[i as int]@);
        let ua: String = match get_str(&rows[i], "ua") {
            Some(x) => x.clone(),
            None => String::new(),
        };
        let uc = chars_of(ua.as_str());
        let k: String = if uc.len() > 0 {
            let (b, o, d) = classify_ua(ua.as_str());
            if which == 0 { b } else if which == 1 { o } else { d }
        } else {
            String::new()
        };
        proof {
            assert(forall|m: int| 0 <= m < cviews(out@).len() ==> 0 < #[trigger] cviews(out@)[m].1 <= i);
            lemma_bump_bound(cviews(out@), k@, i as int);
        }
        bump(&mut out, k.as_str());
        proof {
            assert forall|m: int| 0 <= m < out@.len() implies 0 < (#[trigger] out@[m]).1 <= i + 1 by {
                assert(cviews(out@)[m].1 == out@[m].1);
            }
        }
        i = i + 1;
    }
    assert(all.take(rows.len() as int) =~= all);
    out
}

} // verus!

verus! {

/// The hour of day of `now` in GMT-3.
pub open spec fn local_hour(now: int) -> int {
    ((now - 10800) % 86400) / 3600
}

/// Two decimal digits.
pub open spec fn two_digits(n: int) -> Seq<char> {
    seq![((n / 10) + 48) as char, ((n % 10) + 48) as char]
}

/// The label of hourly bucket `i` (23 the current hour), GMT-3.
pub open spec fn hour_label(now: int, i: int) -> Seq<char> {
    two_digits((local_hour(now) - (23 - i)) % 24) + ":00"@
}

/// The 24 hourly labels.
pub fn hour_labels(now: i64) -> (r: Vec<String>)
    ensures
        r@.len() == 24,
        forall|i: int| 0 <= i < 24 ==> #[trigger] r@[i]@ == hour_label(now as int, i),
{
    let pos: i128 = now as i128 - 10800 + 9223372036854892800;
    let m: i128 = pos % 86400;
    assert(m == (now as int - 10800) % 86400) by (nonlinear_arith)
        requires
            pos == now as int - 10800 + 9223372036854892800,
            pos >= 0,
            m == pos % 86400,
            9223372036854892800 == 86400 * 106751991167302,
    {
    }
    let h: i128 = m / 3600;
    let mut out: Vec<String> = Vec::new();
    let mut i: i128 = 0;
    while i < 24
        invariant
            0 <= i <= 24,
            h == local_hour(now as int),
            0 <= h < 24,
            out@.len() == i,
            forall|k: int| 0 <= k < i ==> #[trigger] out@[k]@ == hour_label(now as int, k),
        decreases 24 - i,
    {
        let v: i128 = (h + i + 1) % 24;
        assert(v == (h - (23 - i)) % 24);
        let d1: u8 = (v / 10) as u8 + 48;
        let d2: u8 = (v % 10) as u8 + 48;
        let mut t: Vec<char> = Vec::new();
        t.push(d1 as char);
        t.push(d2 as char);
        append_str(&mut t, ":00");
        assert(t@ =~= hour_label(now as int, i as int));
        out.push(string_of(&t));
        i = i + 1;
    }
    out
}

/// The action of a row is `a`.
pub open spec fn row_action_is(row: JsonV, a: Seq<char>) -> bool {
    jstr(jget(row, "action"@)) == Some(a)
}

/// Events, blocks and logs per hourly bucket of the rows (`times[i]` is row `i`'s time).
pub open spec fn hour_counts_spec(rows: Seq<JsonV>, times: Seq<Option<int>>, now: int) -> (Seq<int>, Seq<int>, Seq<int>)
    decreases rows.len(),
{
    if rows.len() == 0 {
        (Seq::new(24, |i: int| 0), Seq::new(24, |i: int| 0), Seq::new(24, |i: int| 0))
    } else {
        let (e, b, l) = hour_counts_spec(rows.drop_last(), times.drop_last(), now);
        match hour_bucket_spec(times.last(), now) {
            None => (e, b, l),
            Some(k) => (
                e.update(k, e[k] + 1),
                if row_action_is(rows.last(), "Block"@) { b.update(k, b[k] + 1) } else { b },
                if !row_action_is(rows.last(), "Block"@) && row_action_is(rows.last(), "Log"@) { l.update(k, l[k] + 1) } else { l },
            ),
        }
    }
}

/// The views of counts.
pub open spec fn nviews(v: Seq<i64>) -> Seq<int> {
    v.map_values(|x: i64| x as int)
}

/// Twenty-four zeros.
fn zeros24() -> (r: Vec<i64>)
    ensures
        nviews(r@) == Seq::new(24, |i: int| 0int),
        r@.len() == 24,
        forall|k: int| 0 <= k < 24 ==> #[trigger] r@[k] == 0,
{
    let mut v: Vec<i64> = Vec::new();
    let mut i: usize = 0;
    while i < 24
        invariant
            i <= 24,
            v@.len() == i,
            forall|k: int| 0 <= k < i ==> #[trigger] v@[k] == 0,
        decreases 24 - i,
    {
        v.push(0);
        i = i + 1;
    }
    assert(nviews(v@) =~= Seq::new(24, |i: int| 0int));
    v
}

/// Whether a row's action is `a`.
fn row_action_exec(row: &Json, a: &str) -> (r: bool)
    ensures
        r == row_action_is(row@, a@),
{
    let c = chars_of(a);
    field_is(row, "action", &c)
}

/// Counts events, blocks and logs per hourly bucket.
#[verifier::spinoff_prover]
#[verifier::rlimit(40)]
pub fn hour_counts(rows: &Vec<Json>, times: &Vec<Option<i64>>, now: i64) -> (r: (Vec<i64>, Vec<i64>, Vec<i64>))
    requires
        rows@.len() == times@.len() < i64::MAX,
    ensures
        (nviews(r.0@), nviews(r.1@), nviews(r.2@)) == hour_counts_spec(jviews(rows@), tviews(times@), now as int),
{
    let ghost rr = jviews(rows@);
    let ghost tt = tviews(times@);
    let mut e = zeros24();
    let mut b = zeros24();
    let mut l = zeros24();
    let mut i: usize = 0;
    assert(rr.take(0) =~= Seq::<JsonV>::empty());
    assert(tt.take(0) =~= Seq::<Option<int>>::empty());
    while i < rows.len()
        invariant
            i <= rows@.len() == rr.len() == tt.len() < i64::MAX,
            rr == jviews(rows@),
            tt == tviews(times@),
            e@.len() == 24 && b@.len() == 24 && l@.len() == 24,
            forall|k: int| 0 <= k < 24 ==> 0 <= #[trigger] e@[k] <= i && 0 <= b@[k] <= i && 0 <= l@[k] <= i,
            (nviews(e@), nviews(b@), nviews(l@)) == hour_counts_spec(rr.take(i as int), tt.take(i as int), now as int),
        decreases rows.len() - i,
    {
        assert(rr.take(i + 1).drop_last() =~= rr.take(i as int));
        assert(tt.take(i + 1).drop_last() =~= tt.take(i as int));
        assert(rr.take(i + 1).last() == rows@[i as int]@);
        assert(tt.take(i + 1).last() == tt[i as int]);
        match hour_bucket(times[i], now) {
            None => {
                assert forall|q: int| 0 <= q < 24 implies 0 <= #[trigger] e@[q] <= i + 1 && 0 <= b@[q] <= i + 1 && 0 <= l@[q] <= i + 1 by {
                    assert(0 <= e@[q] <= i && 0 <= b@[q] <= i && 0 <= l@[q] <= i);
                }
            },
            Some(k) => {
                let ghost (e0, b0, l0) = (nviews(e@), nviews(b@), nviews(l@));
                let x = e[k];
                e.set(k, x + 1);
                assert(nviews(e@) =~= e0.update(k as int, e0[k as int] + 1));
                if row_action_exec(&rows[i], "Block") {
                    let y = b[k];
                    b.set(k, y + 1);
                    assert(nviews(b@) =~= b0.update(k as int, b0[k as int] + 1));
                } else if row_action_exec(&rows[i], "Log") {
                    let z = l[k];
                    l.set(k, z + 1);
                    assert(nviews(l@) =~= l0.update(k as int, l0[k as int] + 1));
                }
                assert forall|q: int| 0 <= q < 24 implies 0 <= #[trigger] e@[q] <= i + 1 && 0 <= b@[q] <= i + 1 && 0 <= l@[q] <= i + 1 by {
                    assert(nviews(e@)[q] == e@[q] && nviews(b@)[q] == b@[q] && nviews(l@)[q] == l@[q]);
                    assert(e0[q] <= i && b0[q] <= i && l0[q] <= i);
                }
            },
        }
        assert(forall|q: int| 0 <= q < 24 ==> 0 <= #[trigger] e@[q] <= i + 1 && 0 <= b@[q] <= i + 1 && 0 <= l@[q] <= i + 1);
        i = i + 1;
    }
    assert(rr.take(rows.len() as int) =~= rr);
    assert(tt.take(rows.len() as int) =~= tt);
    (e, b, l)
}

} // verus!

verus! {

/// `s` with `x` added unless already there.
pub open spec fn add_distinct(s: Seq<Seq<char>>, x: Seq<char>) -> Seq<Seq<char>> {
    if s.contains(x) { s } else { s.push(x) }
}

/// The scanner tallies of the rows.
pub struct ScanV {
    pub events: Seq<int>,
    pub blocked: Seq<int>,
    pub logged: Seq<int>,
    pub hour_ips: Seq<Seq<Seq<char>>>,
    pub all_ips: Seq<Seq<char>>,
    pub total: int,
    pub blocked_total: int,
    pub logged_total: int,
    pub marks: Seq<bool>,
}

/// Whether a row is scanner activity.
pub open spec fn row_is_scanner(row: JsonV) -> bool {
    scanner_spec(count_key(row, "ua"@, None), count_key(row, "scenario"@, None), count_key(row, "path"@, None))
}

/// The scanner tallies: which rows are scanner activity, their count and distinct sources,
/// blocks and logs, overall and per hourly bucket.
pub open spec fn scan_spec(rows: Seq<JsonV>, times: Seq<Option<int>>, now: int) -> ScanV
    decreases rows.len(),
{
    if rows.len() == 0 {
        ScanV {
            events: Seq::new(24, |i: int| 0),
            blocked: Seq::new(24, |i: int| 0),
            logged: Seq::new(24, |i: int| 0),
            hour_ips: Seq::new(24, |i: int| Seq::<Seq<char>>::empty()),
            all_ips: Seq::empty(),
            total: 0,
            blocked_total: 0,
            logged_total: 0,
            marks: Seq::empty(),
        }
    } else {
        let p = scan_spec(rows.drop_last(), times.drop_last(), now);
        let row = rows.last();
        if !row_is_scanner(row) {
            ScanV { marks: p.marks.push(false), ..p }
        } else {
            let ip = count_key(row, "ip"@, None);
            let blk = row_action_is(row, "Block"@);
            let lg = !blk && row_action_is(row, "Log"@);
            let q = ScanV {
                total: p.total + 1,
                all_ips: if ip.len() > 0 { add_distinct(p.all_ips, ip) } else { p.all_ips },
                blocked_total: if blk { p.blocked_total + 1 } else { p.blocked_total },
                logged_total: if lg { p.logged_total + 1 } else { p.logged_total },
                marks: p.marks.push(true),
                ..p
            };
            match hour_bucket_spec(times.last(), now) {
                None => q,
                Some(k) => ScanV {
                    events: q.events.update(k, q.events[k] + 1),
                    hour_ips: if ip.len() > 0 { q.hour_ips.update(k, add_distinct(q.hour_ips[k], ip)) } else { q.hour_ips },
                    blocked: if blk { q.blocked.update(k, q.blocked[k] + 1) } else { q.blocked },
                    logged: if lg { q.logged.update(k, q.logged[k] + 1) } else { q.logged },
                    ..q
                },
            }
        }
    }
}

/// The scanner tallies, computed.
pub struct ScanCounts {
    pub events: Vec<i64>,
    pub blocked: Vec<i64>,
    pub logged: Vec<i64>,
    pub hour_ips: Vec<Vec<Vec<char>>>,
    pub all_ips: Vec<Vec<char>>,
    pub total: i64,
    pub blocked_total: i64,
    pub logged_total: i64,
}

/// The views of a list of texts.
pub open spec fn lviews(v: Seq<Vec<Vec<char>>>) -> Seq<Seq<Seq<char>>> {
    v.map_values(|x: Vec<Vec<char>>| crate::correlate::vviews(x@))
}

/// The tallies `c` hold, with the row marks `m`.
pub open spec fn scan_view(c: ScanCounts, m: Seq<bool>) -> ScanV {
    ScanV {
        events: nviews(c.events@),
        blocked: nviews(c.blocked@),
        logged: nviews(c.logged@),
        hour_ips: lviews(c.hour_ips@),
        all_ips: crate::correlate::vviews(c.all_ips@),
        total: c.total as int,
        blocked_total: c.blocked_total as int,
        logged_total: c.logged_total as int,
        marks: m,
    }
}

/// Adds `x` to a list of distinct texts.
fn add_distinct_exec(s: &mut Vec<Vec<char>>, x: &Vec<char>)
    ensures
        crate::correlate::vviews(final(s)@) == add_distinct(crate::correlate::vviews(old(s)@), x@),
{
    let ghost before = crate::correlate::vviews(s@);
    let mut i: usize = 0;
    while i < s.len()
        invariant
            i <= s@.len(),
            s@ == old(s)@,
            before == crate::correlate::vviews(s@),
            forall|k: int| 0 <= k < i ==> #[trigger] before[k] != x@,
        decreases s.len() - i,
    {
        if eq_chars(&s[i], x) {
            assert(before[i as int] == x@);
            return;
        }
        i = i + 1;
    }
    s.push(x.clone());
    assert(crate::correlate::vviews(s@) =~= before.push(x@));
}

/// A copy of a list of texts.
fn copy_texts(v: &Vec<Vec<char>>) -> (r: Vec<Vec<char>>)
    ensures
        crate::correlate::vviews(r@) == crate::correlate::vviews(v@),
{
    let mut r: Vec<Vec<char>> = Vec::new();
    let mut i: usize = 0;
    while i < v.len()
        invariant
            i <= v.len(),
            r@.len() == i,
            forall|k: int| 0 <= k < i ==> #[trigger] r@[k]@ == v@[k]@,
        decreases v.len() - i,
    {
        r.push(v[i].clone());
        i = i + 1;
    }
    assert(crate::correlate::vviews(r@) =~= crate::correlate::vviews(v@));
    r
}

/// Twenty-four empty lists.
fn empty_lists24() -> (r: Vec<Vec<Vec<char>>>)
    ensures
        lviews(r@) == Seq::new(24, |i: int| Seq::<Seq<char>>::empty()),
        r@.len() == 24,
{
    let mut v: Vec<Vec<Vec<char>>> = Vec::new();
    let mut i: usize = 0;
    while i < 24
        invariant
            i <= 24,
            v@.len() == i,
            forall|k: int| 0 <= k < i ==> (#[trigger] v@[k])@.len() == 0,
        decreases 24 - i,
    {
        v.push(Vec::new());
        i = i + 1;
    }
    assert forall|k: int| 0 <= k < 24 implies #[trigger] lviews(v@)[k] == Seq::<Seq<char>>::empty() by {
        assert(crate::correlate::vviews(v@[k]@) =~= Seq::<Seq<char>>::empty());
    }
    assert(lviews(v@) =~= Seq::new(24, |i: int| Seq::<Seq<char>>::empty()));
    v
}

/// Marks the scanner rows (`scanner` set to whether each is) and tallies them.
#[verifier::rlimit(80)]
pub fn scanner_counts(rows: &mut Vec<Json>, times: &Vec<Option<i64>>, now: i64) -> (r: ScanCounts)
    requires
        old(rows)@.len() == times@.len() < i64::MAX,
    ensures
        scan_view(r, scan_spec(jviews(old(rows)@), tviews(times@), now as int).marks) == scan_spec(jviews(old(rows)@), tviews(times@), now as int),
        final(rows)@.len() == old(rows)@.len(),
        forall|i: int| 0 <= i < final(rows)@.len() ==> (#[trigger] final(rows)@[i])@ == set_field(
            old(rows)@[i]@,
            "scanner"@,
            JsonV::Bool(row_is_scanner(old(rows)@[i]@)),
        ),
{
    let ghost rr = jviews(rows@);
    let ghost tt = tviews(times@);
    let mut c = ScanCounts {
        events: zeros24(),
        blocked: zeros24(),
        logged: zeros24(),
        hour_ips: empty_lists24(),
        all_ips: Vec::new(),
        total: 0,
        blocked_total: 0,
        logged_total: 0,
    };
    let ghost mut marks: Seq<bool> = Seq::empty();
    let mut i: usize = 0;
    assert(rr.take(0) =~= Seq::<JsonV>::empty());
    assert(tt.take(0) =~= Seq::<Option<int>>::empty());
    assert(crate::correlate::vviews(c.all_ips@) =~= Seq::<Seq<char>>::empty());
    while i < rows.len()
        invariant
            i <= rows@.len() == rr.len() == tt.len() < i64::MAX,
            rr == jviews(old(rows)@),
            tt == tviews(times@),
            c.events@.len() == 24 && c.blocked@.len() == 24 && c.logged@.len() == 24 && c.hour_ips@.len() == 24,
            forall|k: int| 0 <= k < 24 ==> 0 <= #[trigger] c.events@[k] <= i && 0 <= c.blocked@[k] <= i && 0 <= c.logged@[k] <= i,
            0 <= c.total <= i && 0 <= c.blocked_total <= i && 0 <= c.logged_total <= i,
            scan_view(c, marks) == scan_spec(rr.take(i as int), tt.take(i as int), now as int),
            forall|k: int| i <= k < rows@.len() ==> #[trigger] rows@[k] == old(rows)@[k],
            forall|k: int| 0 <= k < i ==> (#[trigger] rows@[k])@ == set_field(rr[k], "scanner"@, JsonV::Bool(row_is_scanner(rr[k]))),
        decreases rows.len() - i,
    {
        assert(rr.take(i + 1).drop_last() =~= rr.take(i as int));
        assert(tt.take(i + 1).drop_last() =~= tt.take(i as int));
        assert(rr.take(i + 1).last() == rows@[i as int]@);
        assert(tt.take(i + 1).last() == tt[i as int]);
        let ua = match get_str(&rows[i], "ua") { Some(x) => x.clone(), None => String::new() };
        let sc = match get_str(&rows[i], "scenario") { Some(x) => x.clone(), None => String::new() };
        let pa = match get_str(&rows[i], "path") { Some(x) => x.clone(), None => String::new() };
        let is_scan = is_scanner_event(ua.as_str(), sc.as_str(), pa.as_str());
        let ghost old_row = rows@[i as int]@;
        let row = clone_json(&rows[i]);
        let marked = crate::json::json_set(row, "scanner", Json::Bool(is_scan));
        let ghost c0 = scan_view(c, marks);
        let ghost ev0 = c.events@;
        let ghost bl0 = c.blocked@;
        let ghost lo0 = c.logged@;
        assert(forall|q: int| 0 <= q < 24 ==> 0 <= #[trigger] ev0[q] <= i && 0 <= bl0[q] <= i && 0 <= lo0[q] <= i);
        if !is_scan {
            proof {
                marks = marks.push(false);
            }
        } else {
            proof {
                marks = marks.push(true);
            }
            let ip = match get_str(&rows[i], "ip") { Some(x) => chars_of(x.as_str()), None => Vec::new() };
            let blk = row_action_exec(&rows[i], "Block");
            let lg = !blk && row_action_exec(&rows[i], "Log");
            c.total = c.total + 1;
            if ip.len() > 0 {
                add_distinct_exec(&mut c.all_ips, &ip);
            }
            if blk {
                c.blocked_total = c.blocked_total + 1;
            }
            if lg {
                c.logged_total = c.logged_total + 1;
            }
            match hour_bucket(times[i], now) {
                None => {
                    assert(c.events@ == ev0 && c.blocked@ == bl0 && c.logged@ == lo0);
                },
                Some(k) => {
                    let ghost (e0, b0, l0, h0) = (nviews(c.events@), nviews(c.blocked@), nviews(c.logged@), lviews(c.hour_ips@));
                    let x = c.events[k];
                    c.events.set(k, x + 1);
                    assert(nviews(c.events@) =~= e0.update(k as int, e0[k as int] + 1));
                    if ip.len() > 0 {
                        let mut slot = copy_texts(&c.hour_ips[k]);
                        add_distinct_exec(&mut slot, &ip);
                        c.hour_ips.set(k, slot);
                        assert(lviews(c.hour_ips@) =~= h0.update(k as int, add_distinct(h0[k as int], ip@)));
                    } else {
                        assert(lviews(c.hour_ips@) =~= h0);
                    }
                    if blk {
                        let y = c.blocked[k];
                        c.blocked.set(k, y + 1);
                        assert(nviews(c.blocked@) =~= b0.update(k as int, b0[k as int] + 1));
                    }
                    if lg {
                        let z = c.logged[k];
                        c.logged.set(k, z + 1);
                        assert(nviews(c.logged@) =~= l0.update(k as int, l0[k as int] + 1));
                    }
                    assert forall|q: int| 0 <= q < 24 implies 0 <= #[trigger] c.events@[q] <= i + 1 && 0 <= c.blocked@[q] <= i + 1 && 0 <= c.logged@[q] <= i + 1 by {
                        assert(nviews(c.events@)[q] == c.events@[q] && nviews(c.blocked@)[q] == c.blocked@[q] && nviews(c.logged@)[q] == c.logged@[q]);
                        assert(e0[q] <= i && b0[q] <= i && l0[q] <= i);
                    }
                },
            }
        }
        assert(forall|q: int| 0 <= q < 24 ==> 0 <= #[trigger] c.events@[q] <= i + 1 && 0 <= c.blocked@[q] <= i + 1 && 0 <= c.logged@[q] <= i + 1);
        rows.set(i, marked);
        i = i + 1;
    }
    assert(rr.take(rows.len() as int) =~= rr);
    assert(tt.take(rows.len() as int) =~= tt);
    c
}

/// The index of the last bucket with the most events.
pub open spec fn peak_spec(events: Seq<int>, n: int) -> int
    decreases n,
{
    if n <= 1 {
        0
    } else {
        let p = peak_spec(events, n - 1);
        if events[n - 1] >= events[p] { n - 1 } else { p }
    }
}

/// The index of the last bucket with the most events.
pub fn peak_index(events: &Vec<i64>) -> (r: usize)
    requires
        events@.len() > 0,
    ensures
        r as int == peak_spec(nviews(events@), events@.len() as int),
        r < events@.len(),
{
    let mut p: usize = 0;
    let mut i: usize = 1;
    while i < events.len()
        invariant
            1 <= i <= events@.len(),
            p < i,
            p as int == peak_spec(nviews(events@), i as int),
        decreases events.len() - i,
    {
        if events[i] >= events[p] {
            p = i;
        }
        i = i + 1;
    }
    p
}

} // verus!

verus! {

/// A policy or insight card of the action list.
pub open spec fn card(id: Seq<char>, severity: Seq<char>, title: Seq<char>, tags: Seq<Seq<char>>, kind: Seq<char>, view: Seq<char>) -> JsonV {
    JsonV::Object(
        seq![
            ("id"@, JsonV::Str(id)),
            ("severity"@, JsonV::Str(severity)),
            ("title"@, JsonV::Str(title)),
            ("tags"@, crate::correlate::str_array(tags)),
            ("kind"@, JsonV::Str(kind)),
            ("view"@, JsonV::Str(view)),
        ],
    )
}

/// The three operator-policy cards always shown.
pub open spec fn policy_cards() -> Seq<JsonV> {
    seq![
        card("fail-closed-cso"@, "Low"@, "Fail-closed is CSO-enforced (always ON; console cannot disable it)"@, seq!["Operator policy"@, "Edge"@], "policy"@, "engine"@),
        card("bot-off"@, "Low"@, "Bot detection/challenge stays OFF"@, seq!["Operator policy"@, "Bot traffic"@], "policy"@, "engine"@),
        card("crs-oob"@, "Low"@, "CRS stays out-of-band (detect/log, do not ban)"@, seq!["Operator policy"@, "Web app exploits"@], "policy"@, "engine"@),
    ]
}

/// The card raised when the engine's fail-closed metadata drifted.
pub open spec fn drift_card() -> JsonV {
    card("fail-open-drift"@, "High"@, "Fail-closed policy metadata drifted — investigate edge bouncer config"@, seq!["Engine"@, "Policy"@], "insight"@, "engine"@)
}

/// The engine still reports fail-closed, and not as mutable.
pub open spec fn fail_closed_ok(engine: JsonV) -> bool {
    crate::json::bool_or(engine, "fail_closed"@, false) && match crate::json::jbool(jget(engine, "fail_closed_mutable"@)) {
        Some(m) => !m,
        None => true,
    }
}

/// The distinct non-empty source addresses of the rows satisfying `p`, in order.
pub open spec fn distinct_ips(rows: Seq<JsonV>, p: spec_fn(JsonV) -> bool) -> Seq<Seq<char>>
    decreases rows.len(),
{
    if rows.len() == 0 {
        Seq::empty()
    } else {
        let prev = distinct_ips(rows.drop_last(), p);
        let ip = count_key(rows.last(), "ip"@, None);
        if p(rows.last()) && ip.len() > 0 { add_distinct(prev, ip) } else { prev }
    }
}

/// A row whose path probes for secret files.
pub open spec fn probes_secrets(row: JsonV) -> bool {
    let path = count_key(row, "path"@, None);
    contains(path, "/.env"@) || contains(path, "/.aws/"@)
}

/// `s` for one, `s` plus "s" otherwise.
pub open spec fn plural(n: int) -> Seq<char> {
    if n == 1 { Seq::empty() } else { "s"@ }
}

/// The hosts of the origin probes that failed, in order.
pub open spec fn down_hosts(origin: Seq<JsonV>) -> Seq<Seq<char>>
    decreases origin.len(),
{
    if origin.len() == 0 {
        Seq::empty()
    } else {
        let prev = down_hosts(origin.drop_last());
        let p = origin.last();
        let st = match jget(p, "status"@) {
            Some(v) => v,
            None => JsonV::Null,
        };
        if p is Object && !crate::status::status_ok_spec(st) && jstr(jget(p, "host"@)) is Some {
            prev.push(jstr(jget(p, "host"@))->Some_0)
        } else {
            prev
        }
    }
}

/// Texts joined with ", ".
pub open spec fn join_comma_space(parts: Seq<Seq<char>>) -> Seq<char>
    decreases parts.len(),
{
    if parts.len() == 0 {
        Seq::empty()
    } else if parts.len() == 1 {
        parts[0]
    } else {
        join_comma_space(parts.drop_last()) + ", "@ + parts.last()
    }
}

/// The most frequent JA4H label (the last of equal counts, in order of first occurrence)
/// and its count.
pub open spec fn top_label(c: Seq<(Seq<char>, int)>) -> (Seq<char>, int)
    decreases c.len(),
{
    if c.len() == 0 {
        (Seq::empty(), 0)
    } else if c.len() == 1 {
        c[0]
    } else {
        let p = top_label(c.drop_last());
        if c.last().1 >= p.1 { c.last() } else { p }
    }
}

/// A row with JA4H fingerprint `label`.
pub open spec fn has_ja4(label: Seq<char>) -> spec_fn(JsonV) -> bool {
    |row: JsonV| jstr(jget(row, "ja4h"@)) == Some(label)
}

/// What `action_items` answers: the policy cards (after a drift card where the engine's
/// fail-closed metadata drifted), then insights: secret-file probes, failed origin probes,
/// and a JA4H fingerprint repeated in at least 8 events and 40% of the rows.
pub open spec fn action_items_spec(engine: JsonV, rows: Seq<JsonV>, origin: Seq<JsonV>) -> Seq<JsonV> {
    let base = if fail_closed_ok(engine) { policy_cards() } else { seq![drift_card()] + policy_cards() };
    let env = distinct_ips(rows, |r: JsonV| probes_secrets(r));
    let s1 = if env.len() > 0 {
        base.push(card("env-probe"@, "Medium"@,
            "Secret-file probes (/.env, /.aws) — "@ + crate::control::decimal(env.len()) + " source"@ + plural(env.len() as int),
            seq!["Security insight"@, "Active scanning"@], "insight"@, "alerts"@))
    } else {
        base
    };
    let down = down_hosts(origin);
    let s2 = if down.len() > 0 {
        s1.push(card("origin-down"@, "High"@,
            "Origin probe failed: "@ + join_comma_space(if down.len() <= 4 { down } else { down.take(4) }),
            seq!["Origin"@], "insight"@, "domains"@))
    } else {
        s1
    };
    let counts = count_spec(rows, "ja4h"@, None);
    if counts.len() > 0 {
        let (label, count) = top_label(counts);
        let threshold = if (2 * rows.len()) / 5 > 4 { (2 * rows.len()) / 5 } else { 4 };
        if count >= 8 && count >= threshold {
            let n = distinct_ips(rows, has_ja4(label)).len();
            let c = card("ja4-repeat"@, "Medium"@,
                "Repeated JA4H fingerprint ("@ + crate::control::decimal(count as nat) + " events, "@ + crate::control::decimal(n) + " source"@ + plural(n as int) + ")"@,
                seq!["Security insight"@, "Client fingerprint"@], "insight"@, "alerts"@);
            s2.push(set_field(c, "detail"@, JsonV::Str(crate::text::take_at_most(label, 48))))
        } else {
            s2
        }
    } else {
        s2
    }
}

} // verus!

verus! {

/// Builds a card.
fn card_exec(id: &str, severity: &str, title: Vec<char>, tags: &[&str], kind: &str, view: &str) -> (r: Json)
    ensures
        r@ == card(id@, severity@, title@, tags@.map_values(|t: &str| t@), kind@, view@),
{
    let tv = crate::correlate::char_vecs_pub(tags);
    let arr = crate::correlate::str_array_pub(&tv);
    let mut f: Vec<(String, Json)> = Vec::new();
    f.push((String::from_str("id"), Json::Str(String::from_str(id))));
    f.push((String::from_str("severity"), Json::Str(String::from_str(severity))));
    f.push((String::from_str("title"), Json::Str(string_of(&title))));
    f.push((String::from_str("tags"), arr));
    f.push((String::from_str("kind"), Json::Str(String::from_str(kind))));
    f.push((String::from_str("view"), Json::Str(String::from_str(view))));
    let r = Json::Object(f);
    proof {
        crate::json::lemma_object_fview(r);
        assert(fview(f@) =~= card(id@, severity@, title@, tags@.map_values(|t: &str| t@), kind@, view@)->Object_0);
    }
    r
}

/// The distinct non-empty source addresses of the rows probing for secret files.
fn env_ips_exec(rows: &Vec<Json>) -> (r: Vec<Vec<char>>)
    ensures
        crate::correlate::vviews(r@) == distinct_ips(jviews(rows@), |r: JsonV| probes_secrets(r)),
{
    let ghost all = jviews(rows@);
    let ghost p = |r: JsonV| probes_secrets(r);
    let mut out: Vec<Vec<char>> = Vec::new();
    let mut i: usize = 0;
    assert(all.take(0) =~= Seq::<JsonV>::empty());
    assert(crate::correlate::vviews(out@) =~= Seq::<Seq<char>>::empty());
    while i < rows.len()
        invariant
            i <= rows@.len() == all.len(),
            all == jviews(rows@),
            p == |r: JsonV| probes_secrets(r),
            crate::correlate::vviews(out@) == distinct_ips(all.take(i as int), p),
        decreases rows.len() - i,
    {
        assert(all.take(i + 1).drop_last() =~= all.take(i as int));
        assert(all.take(i + 1).last() == rows@[i as int]@);
        let path = match get_str(&rows[i], "path") { Some(x) => chars_of(x.as_str()), None => Vec::new() };
        let e1 = chars_of("/.env");
        let e2 = chars_of("/.aws/");
        let probing = contains_chars(&path, &e1) || contains_chars(&path, &e2);
        let ip = match get_str(&rows[i], "ip") { Some(x) => chars_of(x.as_str()), None => Vec::new() };
        if probing && ip.len() > 0 {
            add_distinct_exec(&mut out, &ip);
        }
        i = i + 1;
    }
    assert(all.take(rows.len() as int) =~= all);
    out
}

/// The distinct non-empty source addresses of the rows with JA4H `label`.
fn ja4_ips_exec(rows: &Vec<Json>, label: &Vec<char>) -> (r: Vec<Vec<char>>)
    ensures
        crate::correlate::vviews(r@) == distinct_ips(jviews(rows@), has_ja4(label@)),
{
    let ghost all = jviews(rows@);
    let ghost p = has_ja4(label@);
    let mut out: Vec<Vec<char>> = Vec::new();
    let mut i: usize = 0;
    assert(all.take(0) =~= Seq::<JsonV>::empty());
    assert(crate::correlate::vviews(out@) =~= Seq::<Seq<char>>::empty());
    while i < rows.len()
        invariant
            i <= rows@.len() == all.len(),
            all == jviews(rows@),
            p == has_ja4(label@),
            crate::correlate::vviews(out@) == distinct_ips(all.take(i as int), p),
        decreases rows.len() - i,
    {
        assert(all.take(i + 1).drop_last() =~= all.take(i as int));
        assert(all.take(i + 1).last() == rows@[i as int]@);
        let same = field_is(&rows[i], "ja4h", label);
        let ip = match get_str(&rows[i], "ip") { Some(x) => chars_of(x.as_str()), None => Vec::new() };
        if same && ip.len() > 0 {
            add_distinct_exec(&mut out, &ip);
        }
        i = i + 1;
    }
    assert(all.take(rows.len() as int) =~= all);
    out
}

/// The hosts of the failed origin probes.
fn down_hosts_exec(origin: &Vec<Json>) -> (r: Vec<Vec<char>>)
    ensures
        crate::correlate::vviews(r@) == down_hosts(jviews(origin@)),
{
    let ghost all = jviews(origin@);
    let mut out: Vec<Vec<char>> = Vec::new();
    let mut i: usize = 0;
    assert(all.take(0) =~= Seq::<JsonV>::empty());
    assert(crate::correlate::vviews(out@) =~= Seq::<Seq<char>>::empty());
    while i < origin.len()
        invariant
            i <= origin@.len() == all.len(),
            all == jviews(origin@),
            crate::correlate::vviews(out@) == down_hosts(all.take(i as int)),
        decreases origin.len() - i,
    {
        assert(all.take(i + 1).drop_last() =~= all.take(i as int));
        assert(all.take(i + 1).last() == origin@[i as int]@);
        let p = &origin[i];
        let ok = match get(p, "status") {
            Some(v) => crate::status::http_status_ok(v),
            None => crate::status::http_status_ok(&Json::Null),
        };
        if is_object(p) && !ok {
            match get_str(p, "host") {
                Some(h) => {
                    let ghost before = crate::correlate::vviews(out@);
                    let hc = chars_of(h.as_str());
                    let ghost hv = hc@;
                    out.push(hc);
                    assert(crate::correlate::vviews(out@) =~= before.push(hv));
                },
                None => {},
            }
        }
        i = i + 1;
    }
    assert(all.take(origin.len() as int) =~= all);
    out
}

/// Texts joined with ", ".
fn join_comma_space_exec(parts: &Vec<Vec<char>>, n: usize) -> (r: Vec<char>)
    requires
        n <= parts@.len(),
    ensures
        r@ == join_comma_space(crate::correlate::vviews(parts@).take(n as int)),
{
    let ghost all = crate::correlate::vviews(parts@);
    let mut out: Vec<char> = Vec::new();
    let mut i: usize = 0;
    assert(all.take(0) =~= Seq::<Seq<char>>::empty());
    while i < n
        invariant
            i <= n <= parts@.len(),
            all == crate::correlate::vviews(parts@),
            out@ == join_comma_space(all.take(i as int)),
        decreases n - i,
    {
        assert(all.take(i + 1).drop_last() =~= all.take(i as int));
        if i > 0 {
            append_str(&mut out, ", ");
        } else {
            assert(all.take(1) =~= seq![all[0]]);
            assert(out@ + parts@[0]@ =~= parts@[0]@);
        }
        append_chars(&mut out, &parts[i]);
        i = i + 1;
    }
    out
}

/// The most frequent label of a counter (the last of equal counts) and its count.
fn top_label_exec(c: &Vec<(String, i64)>) -> (r: (String, i64))
    requires
        c@.len() > 0,
    ensures
        (r.0@, r.1 as int) == top_label(cviews(c@)),
{
    let ghost all = cviews(c@);
    let mut best = (c[0].0.clone(), c[0].1);
    let mut i: usize = 1;
    assert(all.take(1) =~= seq![all[0]]);
    while i < c.len()
        invariant
            1 <= i <= c@.len() == all.len(),
            all == cviews(c@),
            (best.0@, best.1 as int) == top_label(all.take(i as int)),
        decreases c.len() - i,
    {
        assert(all.take(i + 1).drop_last() =~= all.take(i as int));
        if c[i].1 >= best.1 {
            best = (c[i].0.clone(), c[i].1);
        }
        i = i + 1;
    }
    assert(all.take(c.len() as int) =~= all);
    best
}

/// The operator's action list: policy cards, a drift card where needed, and insights.
#[verifier::rlimit(60)]
pub fn action_items(engine: &Json, rows: &Vec<Json>, origin: &Vec<Json>) -> (r: Vec<Json>)
    requires
        rows@.len() < i64::MAX,
    ensures
        jviews(r@) == action_items_spec(engine@, jviews(rows@), jviews(origin@)),
{
    let mut items: Vec<Json> = Vec::new();
    let fc = crate::json::get_bool_or(engine, "fail_closed", false);
    let mutable_ok = match crate::json::get_bool(engine, "fail_closed_mutable") {
        Some(m) => !m,
        None => true,
    };
    if !(fc && mutable_ok) {
        let t: [&str; 2] = ["Engine", "Policy"];
        assert(t@.map_values(|x: &str| x@) =~= seq!["Engine"@, "Policy"@]);
        items.push(card_exec("fail-open-drift", "High", chars_of("Fail-closed policy metadata drifted — investigate edge bouncer config"), &t, "insight", "engine"));
    }
    let t1: [&str; 2] = ["Operator policy", "Edge"];
    assert(t1@.map_values(|x: &str| x@) =~= seq!["Operator policy"@, "Edge"@]);
    items.push(card_exec("fail-closed-cso", "Low", chars_of("Fail-closed is CSO-enforced (always ON; console cannot disable it)"), &t1, "policy", "engine"));
    let t2: [&str; 2] = ["Operator policy", "Bot traffic"];
    assert(t2@.map_values(|x: &str| x@) =~= seq!["Operator policy"@, "Bot traffic"@]);
    items.push(card_exec("bot-off", "Low", chars_of("Bot detection/challenge stays OFF"), &t2, "policy", "engine"));
    let t3: [&str; 2] = ["Operator policy", "Web app exploits"];
    assert(t3@.map_values(|x: &str| x@) =~= seq!["Operator policy"@, "Web app exploits"@]);
    items.push(card_exec("crs-oob", "Low", chars_of("CRS stays out-of-band (detect/log, do not ban)"), &t3, "policy", "engine"));
    let ghost base = jviews(items@);
    assert(base =~= if fail_closed_ok(engine@) { policy_cards() } else { seq![drift_card()] + policy_cards() });
    let env = env_ips_exec(rows);
    if env.len() > 0 {
        let mut title = chars_of("Secret-file probes (/.env, /.aws) — ");
        let d = crate::control::decimal_exec(env.len() as u64);
        append_chars(&mut title, &d);
        append_str(&mut title, " source");
        if env.len() != 1 {
            append_str(&mut title, "s");
        } else {
            assert(title@ + Seq::<char>::empty() =~= title@);
        }
        let t: [&str; 2] = ["Security insight", "Active scanning"];
        assert(t@.map_values(|x: &str| x@) =~= seq!["Security insight"@, "Active scanning"@]);
        let ghost before = jviews(items@);
        let c = card_exec("env-probe", "Medium", title, &t, "insight", "alerts");
        let ghost cv = c@;
        items.push(c);
        assert(jviews(items@) =~= before.push(cv));
    }
    let down = down_hosts_exec(origin);
    if down.len() > 0 {
        let n: usize = if down.len() <= 4 { down.len() } else { 4 };
        let mut title = chars_of("Origin probe failed: ");
        let j = join_comma_space_exec(&down, n);
        proof {
            if down@.len() <= 4 {
                assert(crate::correlate::vviews(down@).take(n as int) =~= crate::correlate::vviews(down@));
            }
        }
        append_chars(&mut title, &j);
        let t: [&str; 1] = ["Origin"];
        assert(t@.map_values(|x: &str| x@) =~= seq!["Origin"@]);
        let ghost before = jviews(items@);
        let c = card_exec("origin-down", "High", title, &t, "insight", "domains");
        let ghost cv = c@;
        items.push(c);
        assert(jviews(items@) =~= before.push(cv));
    }
    let counts = count_field(rows, "ja4h", None);
    if counts.len() > 0 {
        let (label, count) = top_label_exec(&counts);
        let two_fifths: usize = (2 * (rows.len() as u128) / 5) as usize;
        let threshold: usize = if two_fifths > 4 { two_fifths } else { 4 };
        if count >= 8 && count as u128 >= threshold as u128 {
            let lc = chars_of(label.as_str());
            let ips = ja4_ips_exec(rows, &lc);
            let n = ips.len();
            let mut title = chars_of("Repeated JA4H fingerprint (");
            let d1 = crate::control::decimal_exec(count as u64);
            append_chars(&mut title, &d1);
            append_str(&mut title, " events, ");
            let d2 = crate::control::decimal_exec(n as u64);
            append_chars(&mut title, &d2);
            append_str(&mut title, " source");
            if n != 1 {
                append_str(&mut title, "s");
            } else {
                assert(title@ + Seq::<char>::empty() =~= title@);
            }
            append_str(&mut title, ")");
            let t: [&str; 2] = ["Security insight", "Client fingerprint"];
            assert(t@.map_values(|x: &str| x@) =~= seq!["Security insight"@, "Client fingerprint"@]);
            let c = card_exec("ja4-repeat", "Medium", title, &t, "insight", "alerts");
            let detail = crate::text::take_chars(&lc, 48);
            let c2 = crate::json::json_set(c, "detail", Json::Str(string_of(&detail)));
            let ghost before = jviews(items@);
            let ghost cv = c2@;
            items.push(c2);
            assert(jviews(items@) =~= before.push(cv));
        }
    }
    items
}

} // verus!

verus! {

/// A detection-tool status object.
pub open spec fn tool(id: Seq<char>, name: Seq<char>, status: Seq<char>, running: bool, count: int, note: Seq<char>) -> JsonV {
    JsonV::Object(
        seq![
            ("id"@, JsonV::Str(id)),
            ("name"@, JsonV::Str(name)),
            ("status"@, JsonV::Str(status)),
            ("running"@, JsonV::Bool(running)),
            ("count"@, JsonV::Int(count)),
            ("note"@, JsonV::Str(note)),
        ],
    )
}

/// Rows whose action is `Log`.
pub open spec fn logged_rows(rows: Seq<JsonV>) -> int
    decreases rows.len(),
{
    if rows.len() == 0 {
        0
    } else {
        logged_rows(rows.drop_last()) + if row_action_is(rows.last(), "Log"@) { 1int } else { 0int }
    }
}

/// What `detection_tools` answers: the status of each detection family.
pub open spec fn detection_tools_spec(engine: JsonV, rows: Seq<JsonV>, hub: Seq<Seq<char>>) -> Seq<JsonV> {
    let hub_l = lower(crate::text::join_space(hub));
    let appsec = crate::json::bool_or(engine, "appsec_listen"@, false);
    let oob = crate::json::bool_or(engine, "oob_log_only"@, false);
    let exploits = distinct_ips(rows, |r: JsonV| row_action_is(r, "Block"@)).len();
    let dos = contains(hub_l, "http-dos"@) || contains(hub_l, "ddos"@);
    seq![
        tool("bot"@, "Bot traffic"@, "off"@, false, 0, "CrowdSec 1.8 bot challenge remains OFF (operator policy)."@),
        tool("exploits"@, "Web app exploits"@, if appsec { "running"@ } else { "down"@ }, appsec, exploits as int,
            "Unique source IPs with a Block decision. OOB log-only matches are not counted as exploits."@),
        tool("ddos"@, "HTTP floods"@, if dos { "running"@ } else { "limited"@ }, dos, 0, "No volumetric DDoS feed. Local HTTP scenarios only."@),
        tool("api"@, "API abuse"@, if appsec { "running"@ } else { "down"@ }, appsec, 0, "Covered by AppSec on in-scope FQDNs."@),
        tool("client"@, "Client-side abuse"@, "off"@, false, 0, "Not in the CrowdSec band."@),
        tool("fraud"@, "Fraud protection"@, "off"@, false, 0, "Not in the CrowdSec band."@),
        tool("crs"@, "CRS out-of-band"@, if oob { "running"@ } else { "check"@ }, oob, logged_rows(rows),
            "Detect/log only. UI cannot enable in-band CRS."@),
    ]
}

/// Builds a detection-tool status object.
fn tool_exec(id: &str, name: &str, status: &str, running: bool, count: i64, note: &str) -> (r: Json)
    ensures
        r@ == tool(id@, name@, status@, running, count as int, note@),
{
    let mut f: Vec<(String, Json)> = Vec::new();
    f.push((String::from_str("id"), Json::Str(String::from_str(id))));
    f.push((String::from_str("name"), Json::Str(String::from_str(name))));
    f.push((String::from_str("status"), Json::Str(String::from_str(status))));
    f.push((String::from_str("running"), Json::Bool(running)));
    f.push((String::from_str("count"), Json::Int(count)));
    f.push((String::from_str("note"), Json::Str(String::from_str(note))));
    let r = Json::Object(f);
    proof {
        crate::json::lemma_object_fview(r);
        assert(fview(f@) =~= tool(id@, name@, status@, running, count as int, note@)->Object_0);
    }
    r
}

/// The distinct non-empty source addresses of the blocked rows.
fn blocked_ips_exec(rows: &Vec<Json>) -> (r: Vec<Vec<char>>)
    ensures
        crate::correlate::vviews(r@) == distinct_ips(jviews(rows@), |r: JsonV| row_action_is(r, "Block"@)),
{
    let ghost all = jviews(rows@);
    let ghost p = |r: JsonV| row_action_is(r, "Block"@);
    let mut out: Vec<Vec<char>> = Vec::new();
    let mut i: usize = 0;
    assert(all.take(0) =~= Seq::<JsonV>::empty());
    assert(crate::correlate::vviews(out@) =~= Seq::<Seq<char>>::empty());
    while i < rows.len()
        invariant
            i <= rows@.len() == all.len(),
            all == jviews(rows@),
            p == |r: JsonV| row_action_is(r, "Block"@),
            crate::correlate::vviews(out@) == distinct_ips(all.take(i as int), p),
        decreases rows.len() - i,
    {
        assert(all.take(i + 1).drop_last() =~= all.take(i as int));
        assert(all.take(i + 1).last() == rows@[i as int]@);
        let blk = row_action_exec(&rows[i], "Block");
        let ip = match get_str(&rows[i], "ip") { Some(x) => chars_of(x.as_str()), None => Vec::new() };
        if blk && ip.len() > 0 {
            add_distinct_exec(&mut out, &ip);
        }
        i = i + 1;
    }
    assert(all.take(rows.len() as int) =~= all);
    out
}

/// Distinct addresses are at most one per row.
pub proof fn lemma_distinct_ips_len(rows: Seq<JsonV>, p: spec_fn(JsonV) -> bool)
    ensures
        distinct_ips(rows, p).len() <= rows.len(),
    decreases rows.len(),
{
    if rows.len() > 0 {
        lemma_distinct_ips_len(rows.drop_last(), p);
    }
}

/// Counts the rows whose action is `Log`.
fn logged_rows_exec(rows: &Vec<Json>) -> (r: i64)
    requires
        rows@.len() < i64::MAX,
    ensures
        r as int == logged_rows(jviews(rows@)),
{
    let ghost all = jviews(rows@);
    let mut n: i64 = 0;
    let mut i: usize = 0;
    assert(all.take(0) =~= Seq::<JsonV>::empty());
    while i < rows.len()
        invariant
            i <= rows@.len() == all.len() < i64::MAX,
            all == jviews(rows@),
            0 <= n <= i,
            n as int == logged_rows(all.take(i as int)),
        decreases rows.len() - i,
    {
        assert(all.take(i + 1).drop_last() =~= all.take(i as int));
        assert(all.take(i + 1).last() == rows@[i as int]@);
        if row_action_exec(&rows[i], "Log") {
            n = n + 1;
        }
        i = i + 1;
    }
    assert(all.take(rows.len() as int) =~= all);
    n
}

/// The status of each detection family (`hub` lists the installed hub rules).
pub fn detection_tools(engine: &Json, rows: &Vec<Json>, hub: &[&str]) -> (r: Vec<Json>)
    requires
        rows@.len() < i64::MAX,
    ensures
        jviews(r@) == detection_tools_spec(engine@, jviews(rows@), crate::text::views(hub@)),
{
    let joined = crate::text::join_with_space(hub);
    let hub_l = lower_chars(&joined);
    let appsec = crate::json::get_bool_or(engine, "appsec_listen", false);
    let oob = crate::json::get_bool_or(engine, "oob_log_only", false);
    let exploits = blocked_ips_exec(rows);
    proof {
        lemma_distinct_ips_len(jviews(rows@), |r: JsonV| row_action_is(r, "Block"@));
    }
    let d1 = chars_of("http-dos");
    let d2 = chars_of("ddos");
    let dos = contains_chars(&hub_l, &d1) || contains_chars(&hub_l, &d2);
    let mut out: Vec<Json> = Vec::new();
    out.push(tool_exec("bot", "Bot traffic", "off", false, 0, "CrowdSec 1.8 bot challenge remains OFF (operator policy)."));
    out.push(tool_exec("exploits", "Web app exploits", if appsec { "running" } else { "down" }, appsec, exploits.len() as i64,
        "Unique source IPs with a Block decision. OOB log-only matches are not counted as exploits."));
    out.push(tool_exec("ddos", "HTTP floods", if dos { "running" } else { "limited" }, dos, 0, "No volumetric DDoS feed. Local HTTP scenarios only."));
    out.push(tool_exec("api", "API abuse", if appsec { "running" } else { "down" }, appsec, 0, "Covered by AppSec on in-scope FQDNs."));
    out.push(tool_exec("client", "Client-side abuse", "off", false, 0, "Not in the CrowdSec band."));
    out.push(tool_exec("fraud", "Fraud protection", "off", false, 0, "Not in the CrowdSec band."));
    let logged = logged_rows_exec(rows);
    out.push(tool_exec("crs", "CRS out-of-band", if oob { "running" } else { "check" }, oob, logged, "Detect/log only. UI cannot enable in-band CRS."));
    assert(jviews(out@) =~= detection_tools_spec(engine@, jviews(rows@), crate::text::views(hub@)));
    out
}

} // verus!

verus! {

/// The cleaned, non-empty catalog hosts.
pub open spec fn clean_hosts_spec(hosts: Seq<Seq<char>>) -> Seq<Seq<char>>
    decreases hosts.len(),
{
    if hosts.len() == 0 {
        Seq::empty()
    } else {
        let prev = clean_hosts_spec(hosts.drop_last());
        let c = clean_host_spec(hosts.last());
        if c.len() > 0 { prev.push(c) } else { prev }
    }
}

/// `h` is one of `hs`, a subdomain of one, or a parent domain of one.
pub open spec fn host_related(h: Seq<char>, hs: Seq<Seq<char>>) -> bool {
    hs.contains(h) || exists|i: int|
        0 <= i < hs.len() && (has_suffix(h, "."@ + #[trigger] hs[i]) || has_suffix(hs[i], "."@ + h))
}

/// What the dashboard's host selection answers: the cleaned host, kept only when there are
/// no catalog hosts or it is related to one of them.
pub open spec fn select_host_spec(host: Seq<char>, hosts: Seq<Seq<char>>) -> Seq<char> {
    let h = clean_host_spec(host);
    let hs = clean_hosts_spec(hosts);
    if h.len() > 0 && hs.len() > 0 && !host_related(h, hs) {
        Seq::empty()
    } else {
        h
    }
}

/// Whether `h` is related to one of `hs`.
fn host_related_exec(h: &Vec<char>, hs: &Vec<String>) -> (r: bool)
    ensures
        r == host_related(h@, hs@.map_values(|s: String| s@)),
{
    let ghost v = hs@.map_values(|s: String| s@);
    let mut dh = chars_of(".");
    append_chars(&mut dh, h);
    let mut k: usize = 0;
    while k < hs.len()
        invariant
            k <= hs@.len() == v.len(),
            v == hs@.map_values(|s: String| s@),
            dh@ == "."@ + h@,
            forall|m: int| 0 <= m < k ==> v[m] != h@ && !(has_suffix(h@, "."@ + #[trigger] v[m]) || has_suffix(v[m], "."@ + h@)),
        decreases hs.len() - k,
    {
        let c = chars_of(hs[k].as_str());
        let mut dc = chars_of(".");
        append_chars(&mut dc, &c);
        if eq_chars(&c, h) || ends_with_chars(h, &dc) || ends_with_chars(&c, &dh) {
            proof {
                assert(v[k as int] == c@);
                if v[k as int] == h@ {
                    assert(v.contains(h@));
                } else {
                    assert(has_suffix(h@, "."@ + v[k as int]) || has_suffix(v[k as int], "."@ + h@));
                }
            }
            return true;
        }
        k = k + 1;
    }
    false
}

/// Cleans the catalog hosts and the selected host; a host outside the catalog is dropped.
pub fn select_host(host: &str, hosts: &[&str]) -> (r: (String, Vec<String>))
    ensures
        r.0@ == select_host_spec(host@, crate::text::views(hosts@)),
        r.1@.map_values(|s: String| s@) == clean_hosts_spec(crate::text::views(hosts@)),
{
    let ghost hv = crate::text::views(hosts@);
    let mut cleaned: Vec<String> = Vec::new();
    let mut i: usize = 0;
    assert(hv.take(0) =~= Seq::<Seq<char>>::empty());
    assert(cleaned@.map_values(|s: String| s@) =~= Seq::<Seq<char>>::empty());
    while i < hosts.len()
        invariant
            i <= hosts@.len() == hv.len(),
            hv == crate::text::views(hosts@),
            cleaned@.map_values(|s: String| s@) == clean_hosts_spec(hv.take(i as int)),
        decreases hosts.len() - i,
    {
        assert(hv.take(i + 1).drop_last() =~= hv.take(i as int));
        assert(hv.take(i + 1).last() == hosts@[i as int]@);
        let c = clean_host(hosts[i]);
        let cc = chars_of(c.as_str());
        if cc.len() > 0 {
            let ghost before = cleaned@.map_values(|s: String| s@);
            let ghost cv = c@;
            cleaned.push(c);
            assert(cleaned@.map_values(|s: String| s@) =~= before.push(cv));
        }
        i = i + 1;
    }
    assert(hv.take(hosts.len() as int) =~= hv);
    let h_s = clean_host(host);
    let h = chars_of(h_s.as_str());
    if h.len() > 0 && cleaned.len() > 0 && !host_related_exec(&h, &cleaned) {
        return (String::new(), cleaned);
    }
    (h_s, cleaned)
}

/// The alert sample limit: the caller's, at least 1 (500 by default).
pub open spec fn fetch_limit_spec(limit: Option<usize>) -> int {
    match limit {
        Some(n) => if n >= 1 { n as int } else { 1 },
        None => 500,
    }
}

/// The window label of the dashboard, which warns when the sample hit the fetch limit.
pub open spec fn window_label_spec(fetched: int, limit: int) -> Seq<char> {
    if fetched >= limit {
        "Last 24 hours · GMT-3 · sample of newest "@ + crate::control::decimal(limit as nat) + " alerts (may be incomplete)"@
    } else {
        "Last 24 hours · GMT-3"@
    }
}

/// The sample limit, whether the sample hit it, and the window label.
pub fn sample_info(fetched: usize, limit: Option<usize>) -> (r: (usize, bool, String))
    ensures
        r.0 as int == fetch_limit_spec(limit),
        r.1 == (fetched >= r.0),
        r.2@ == window_label_spec(fetched as int, r.0 as int),
{
    let lim: usize = match limit {
        Some(n) => if n >= 1 { n } else { 1 },
        None => 500,
    };
    let capped = fetched >= lim;
    let label = if capped {
        let mut t = chars_of("Last 24 hours · GMT-3 · sample of newest ");
        let d = crate::control::decimal_exec(lim as u64);
        append_chars(&mut t, &d);
        append_str(&mut t, " alerts (may be incomplete)");
        string_of(&t)
    } else {
        String::from_str("Last 24 hours · GMT-3")
    };
    (lim, capped, label)
}

} // verus!

verus! {

/// The dashboard never counts an event outside its 24-hour window: every kept row's time is
/// inside the window, and kept plus skipped rows never exceed the alerts fetched.
pub proof fn law_rows_inside_window(
    alerts: Seq<JsonV>,
    times: Seq<Option<int>>,
    now: int,
    host: Seq<char>,
    filters: Seq<(Seq<char>, Seq<char>)>,
)
    requires
        times.len() == alerts.len(),
    ensures
        forall|k: int| 0 <= k < rows_spec(alerts, times, now, host, filters).1.len()
            ==> within_window_spec(#[trigger] rows_spec(alerts, times, now, host, filters).1[k], now, 24),
        rows_spec(alerts, times, now, host, filters).0.len() + rows_spec(alerts, times, now, host, filters).2 <= alerts.len(),
    decreases alerts.len(),
{
    if alerts.len() > 0 {
        law_rows_inside_window(alerts.drop_last(), times.drop_last(), now, host, filters);
        let prev = rows_spec(alerts.drop_last(), times.drop_last(), now, host, filters);
        let cur = rows_spec(alerts, times, now, host, filters);
        assert(cur == match alert_step(alerts.last(), times.last(), now, host, filters) {
            RowStep::Ignore => prev,
            RowStep::OutOfWindow => (prev.0, prev.1, prev.2 + 1),
            RowStep::Keep(row) => (prev.0.push(row), prev.1.push(times.last()), prev.2),
        });
        match alert_step(alerts.last(), times.last(), now, host, filters) {
            RowStep::Keep(row) => {
                assert forall|k: int| 0 <= k < cur.1.len() implies within_window_spec(#[trigger] cur.1[k], now, 24) by {
                    if k < prev.1.len() {
                        assert(cur.1[k] == prev.1[k]);
                    } else {
                        assert(cur.1[k] == times.last());
                        reveal(alert_step);
                        assert(within_window_spec(times.last(), now, 24));
                    }
                }
            },
            _ => {},
        }
    }
}

} // verus!
