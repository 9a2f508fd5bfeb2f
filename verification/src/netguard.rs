//! Network hardening: hostname sanitizing, loopback URL checks, request rate limiting.
use vstd::prelude::*;

use crate::netaddr::{ip_parse, parse_ip};
use crate::number::{parse_int, parse_int_spec};
use crate::pattern::{re_is_match, regex_match};
use crate::text::{
    chars_of, concat_chars, eq_chars, has_char, has_char_exec, lower, lower_chars, message,
    string_of, trim, trim_chars,
};

verus! {

/// Hostnames accepted for probes and the catalog.
pub const SANE_HOST_PATTERN: &'static str = "^[A-Za-z0-9](?:[A-Za-z0-9.-]{0,251}[A-Za-z0-9])?$";

/// Bytes taken by `c` in UTF-8.
pub open spec fn utf8_width(c: char) -> nat {
    if (c as u32) < 0x80 {
        1
    } else if (c as u32) < 0x800 {
        2
    } else if (c as u32) < 0x10000 {
        3
    } else {
        4
    }
}

/// Length in bytes of the UTF-8 encoding of `s` (`str::len`).
pub open spec fn byte_len(s: Seq<char>) -> nat
    decreases s.len(),
{
    if s.len() == 0 {
        0
    } else {
        byte_len(s.drop_last()) + utf8_width(s.last())
    }
}

/// Whether the UTF-8 encoding of `s` is longer than `cap` bytes.
pub fn byte_len_exceeds(s: &Vec<char>, cap: u64) -> (r: bool)
    ensures
        r == (byte_len(s@) > cap),
{
    let mut total: u64 = 0;
    let mut i: usize = 0;
    while i < s.len()
        invariant
            i <= s.len(),
            total == byte_len(s@.take(i as int)),
            total <= cap,
        decreases s.len() - i,
    {
        let c = s[i];
        let w: u64 = if (c as u32) < 0x80 {
            1
        } else if (c as u32) < 0x800 {
            2
        } else if (c as u32) < 0x10000 {
            3
        } else {
            4
        };
        assert(s@.take(i + 1).drop_last() =~= s@.take(i as int));
        assert(s@.take(i + 1).last() == c);
        if w > cap - total {
            proof {
                lemma_byte_len_prefix(s@, i + 1);
            }
            return true;
        }
        total = total + w;
        i = i + 1;
    }
    assert(s@.take(s.len() as int) =~= s@);
    false
}

/// A longer text takes at least as many bytes as its prefix.
pub proof fn lemma_byte_len_prefix(s: Seq<char>, n: int)
    requires
        0 <= n <= s.len(),
    ensures
        byte_len(s.take(n)) <= byte_len(s),
    decreases s.len() - n,
{
    if n < s.len() {
        lemma_byte_len_prefix(s, n + 1);
        assert(s.take(n + 1).drop_last() =~= s.take(n));
    } else {
        assert(s.take(n) =~= s);
    }
}

/// Characters never allowed in a hostname.
pub open spec fn bad_host_char(c: char) -> bool {
    c == '\r' || c == '\n' || c == '\0' || c == '/' || c == '\\' || c == ' ' || c == ':' || c == '@'
}

/// Some character of `s` is a forbidden hostname character.
pub open spec fn has_bad_host_char(s: Seq<char>) -> bool {
    exists|i: int| 0 <= i < s.len() && bad_host_char(s[i])
}

/// What `sanitize_hostname` answers for `host`.
pub open spec fn sanitized_host(host: Seq<char>) -> Option<Seq<char>> {
    let v = lower(trim(host));
    if v.len() == 0 || byte_len(v) > 253 || has_bad_host_char(v) || !regex_match(
        SANE_HOST_PATTERN@,
        v,
    ) {
        None
    } else {
        Some(v)
    }
}

/// Accepts a DNS hostname: trimmed, lowercased, 1 to 253 bytes, none of `\r \n \0 / \ : @`
/// or space, and of the hostname shape; answers it normalized, else `invalid host`.
pub fn sanitize_hostname(host: &str) -> (r: Result<String, String>)
    ensures
        match sanitized_host(host@) {
            Some(v) => r matches Ok(s) && s@ == v,
            None => r matches Err(e) && e@ == "invalid host"@,
        },
{
    let raw = chars_of(host);
    let t = trim_chars(&raw);
    let v = lower_chars(&t);
    let vs = string_of(&v);
    if v.len() == 0 || byte_len_exceeds(&v, 253) {
        return Err(String::from_str("invalid host"));
    }
    let mut i: usize = 0;
    while i < v.len()
        invariant
            i <= v.len(),
            v@ == lower(trim(host@)),
            v.len() > 0,
            byte_len(v@) <= 253,
            forall|j: int| 0 <= j < i ==> !bad_host_char(v@[j]),
        decreases v.len() - i,
    {
        let c = v[i];
        if c == '\r' || c == '\n' || c == '\0' || c == '/' || c == '\\' || c == ' ' || c == ':'
            || c == '@' {
            assert(bad_host_char(v@[i as int]));
            assert(has_bad_host_char(v@));
            return Err(String::from_str("invalid host"));
        }
        i = i + 1;
    }
    if !re_is_match(SANE_HOST_PATTERN, vs.as_str()) {
        return Err(String::from_str("invalid host"));
    }
    Ok(vs)
}

/// What `assert_probe_server` answers: empty stays empty, else the canonical address.
pub open spec fn probe_server_verdict(value: Seq<char>, name: Seq<char>) -> Result<
    Seq<char>,
    Seq<char>,
> {
    let raw = trim(value);
    if raw.len() == 0 {
        Ok(Seq::empty())
    } else {
        match ip_parse(raw) {
            Some((_, _, text)) => Ok(text),
            None => Err(name + " must be a literal IP address: invalid IP address syntax"@),
        }
    }
}

/// Accepts the probe server setting (`PUBLIC_IP`): empty, or a literal IP address.
pub fn assert_probe_server(value: &str, name: &str) -> (r: Result<String, String>)
    ensures
        match probe_server_verdict(value@, name@) {
            Ok(v) => r matches Ok(s) && s@ == v,
            Err(m) => r matches Err(e) && e@ == m,
        },
{
    let raw = chars_of(value);
    let t = trim_chars(&raw);
    if t.len() == 0 {
        return Ok(String::new());
    }
    let ts = string_of(&t);
    match parse_ip(ts.as_str()) {
        Some((_, _, text)) => Ok(text),
        None => {
            let n = chars_of(name);
            let tail = chars_of(" must be a literal IP address: invalid IP address syntax");
            let all = concat_chars(&n, &tail);
            Err(string_of(&all))
        },
    }
}

/// What the `url` crate reads from `text`: scheme, username, whether a password is present,
/// and the host text (`Url::host_str`).
pub uninterp spec fn url_parts(text: Seq<char>) -> Option<(Seq<char>, Seq<char>, bool, Option<Seq<char>>)>;

/// `url::Url::parse`, converted to scheme, username, password presence and host text.
#[verifier::external_body]
pub(crate) fn parse_url(text: &str) -> (r: Option<(String, String, bool, Option<String>)>)
    ensures
        match r {
            Some((sc, u, pw, h)) => url_parts(text@) matches Some((vsc, vu, vpw, vh)) && vsc
                == sc@ && vu == u@ && vpw == pw && match h {
                Some(hs) => vh == Some(hs@),
                None => vh is None,
            },
            None => url_parts(text@) is None,
        },
{
    match url::Url::parse(text) {
        Ok(u) => Some(
            (
                u.scheme().to_string(),
                u.username().to_string(),
                u.password().is_some(),
                u.host_str().map(|h| h.to_string()),
            ),
        ),
        Err(_) => None,
    }
}

/// `s` without its trailing `c` characters (`str::trim_end_matches` with a char).
pub open spec fn strip_trailing(s: Seq<char>, c: char) -> Seq<char>
    decreases s.len(),
{
    if s.len() > 0 && s.last() == c {
        strip_trailing(s.drop_last(), c)
    } else {
        s
    }
}

/// Removes trailing `c` characters.
pub fn strip_trailing_exec(s: &Vec<char>, c: char) -> (r: Vec<char>)
    ensures
        r@ == strip_trailing(s@, c),
{
    let mut j = s.len();
    assert(s@.subrange(0, j as int) =~= s@);
    while j > 0 && s[j - 1] == c
        invariant
            j <= s.len(),
            strip_trailing(s@, c) == strip_trailing(s@.subrange(0, j as int), c),
        decreases j,
    {
        assert(s@.subrange(0, j as int).drop_last() =~= s@.subrange(0, j - 1));
        j = j - 1;
    }
    crate::text::slice_chars(s, 0, j)
}

/// A URL host without the square brackets that enclose an IPv6 address (`[::1]` is `::1`).
pub open spec fn unbracket(h: Seq<char>) -> Seq<char> {
    if h.len() >= 2 && h[0] == '[' && h.last() == ']' {
        h.subrange(1, h.len() - 1)
    } else {
        h
    }
}

/// What `assert_loopback_http_url` answers for `url` (setting `name`): an IPv6 host, which
/// URLs write in brackets, is judged without them.
pub open spec fn loopback_http_verdict(url: Seq<char>, name: Seq<char>) -> Result<
    Seq<char>,
    Seq<char>,
> {
    let raw = trim(url);
    if raw.len() == 0 {
        Err(name + " is empty"@)
    } else {
        match url_parts(raw) {
            None => Err(name + " scheme must be http or https"@),
            Some((scheme, user, pw, host)) => if scheme != "http"@ && scheme != "https"@ {
                Err(name + " scheme must be http or https"@)
            } else if user != Seq::<char>::empty() || pw {
                Err(name + " must not embed credentials"@)
            } else {
                let h = lower(
                    match host {
                        Some(x) => x,
                        None => Seq::empty(),
                    },
                );
                if h.len() == 0 {
                    Err(name + " missing host"@)
                } else if h == "127.0.0.1"@ || h == "localhost"@ || unbracket(h) == "::1"@ {
                    Ok(strip_trailing(raw, '/'))
                } else if ip_parse(unbracket(h)) matches Some((_, true, _)) {
                    Ok(strip_trailing(raw, '/'))
                } else {
                    Err(name + " must target loopback (got "@ + h + ")"@)
                }
            },
        }
    }
}

/// Accepts an outbound URL only when it is http(s), carries no credentials and targets a
/// loopback host; answers it without trailing slashes.
pub fn assert_loopback_http_url(url: &str, name: &str) -> (r: Result<String, String>)
    ensures
        match loopback_http_verdict(url@, name@) {
            Ok(v) => r matches Ok(s) && s@ == v,
            Err(m) => r matches Err(e) && e@ == m,
        },
{
    let n = chars_of(name);
    let raw0 = chars_of(url);
    let raw = trim_chars(&raw0);
    if raw.len() == 0 {
        let t = chars_of(" is empty");
        return Err(string_of(&concat_chars(&n, &t)));
    }
    let rs = string_of(&raw);
    let parts = parse_url(rs.as_str());
    let (scheme, user, pw, host) = match parts {
        None => {
            let t = chars_of(" scheme must be http or https");
            return Err(string_of(&concat_chars(&n, &t)));
        },
        Some(p) => p,
    };
    let sc = chars_of(scheme.as_str());
    let http = chars_of("http");
    let https = chars_of("https");
    if !eq_chars(&sc, &http) && !eq_chars(&sc, &https) {
        let t = chars_of(" scheme must be http or https");
        return Err(string_of(&concat_chars(&n, &t)));
    }
    let uc = chars_of(user.as_str());
    if uc.len() != 0 || pw {
        let t = chars_of(" must not embed credentials");
        return Err(string_of(&concat_chars(&n, &t)));
    }
    assert(uc@ =~= Seq::<char>::empty());
    let hraw = match host {
        Some(x) => chars_of(x.as_str()),
        None => Vec::new(),
    };
    let h = lower_chars(&hraw);
    if h.len() == 0 {
        let t = chars_of(" missing host");
        return Err(string_of(&concat_chars(&n, &t)));
    }
    let l1 = chars_of("127.0.0.1");
    let l2 = chars_of("localhost");
    let l3 = chars_of("::1");
    let hb = if h.len() >= 2 && h[0] == '[' && h[h.len() - 1] == ']' {
        crate::text::slice_chars(&h, 1, h.len() - 1)
    } else {
        h.clone()
    };
    assert(hb@ == unbracket(h@));
    if eq_chars(&h, &l1) || eq_chars(&h, &l2) || eq_chars(&hb, &l3) {
        return Ok(string_of(&strip_trailing_exec(&raw, '/')));
    }
    let hs = string_of(&hb);
    if let Some((_, true, _)) = parse_ip(hs.as_str()) {
        return Ok(string_of(&strip_trailing_exec(&raw, '/')));
    }
    let t1 = chars_of(" must target loopback (got ");
    let t2 = chars_of(")");
    let a = concat_chars(&n, &t1);
    let b = concat_chars(&a, &h);
    Err(string_of(&concat_chars(&b, &t2)))
}

/// What `env_int` answers for the raw setting text.
pub open spec fn env_int_value(raw: Seq<char>, default: int, minimum: int, maximum: int) -> int {
    if trim(raw).len() == 0 {
        default
    } else {
        match parse_int_spec(raw, true, i64::MIN as int, i64::MAX as int) {
            Ok(v) => if v < minimum { minimum } else if v > maximum { maximum } else { v },
            Err(_) => default,
        }
    }
}

/// An integer setting: `default` when unset, blank or not an integer, else clamped to
/// `[minimum, maximum]`. `raw` is the variable's text (`""` when unset).
pub fn env_int(raw: &str, default: i64, minimum: i64, maximum: i64) -> (r: i64)
    requires
        minimum <= maximum,
    ensures
        r as int == env_int_value(raw@, default as int, minimum as int, maximum as int),
{
    let c = chars_of(raw);
    let t = trim_chars(&c);
    if t.len() == 0 {
        return default;
    }
    match parse_int(&c, true, i64::MIN, i64::MAX) {
        Ok(v) => if v < minimum {
            minimum
        } else if v > maximum {
            maximum
        } else {
            v
        },
        Err(_) => default,
    }
}

} // verus!

verus! {

/// The hits of `ts` still inside the window at `now`: those with `t + window > now`.
pub open spec fn recent(ts: Seq<u64>, now: int, window: int) -> Seq<u64>
    decreases ts.len(),
{
    if ts.len() == 0 {
        Seq::empty()
    } else {
        let r = recent(ts.drop_last(), now, window);
        if ts.last() + window > now {
            r.push(ts.last())
        } else {
            r
        }
    }
}

/// A bucket that eviction may drop: empty, or whose newest hit is older than the window.
pub open spec fn stale(ts: Seq<u64>, now: int, window: int) -> bool {
    ts.len() == 0 || ts.last() + window < now
}

/// `hits` after eviction: going in order, each stale bucket is dropped while fewer than
/// `budget` have been dropped; every other bucket is kept, in order.
pub open spec fn evicted(hits: Seq<(String, Vec<u64>)>, now: int, window: int, budget: nat) -> Seq<(String, Vec<u64>)>
    decreases hits.len(),
{
    if hits.len() == 0 {
        hits
    } else if stale(hits[0].1@, now, window) && budget > 0 {
        evicted(hits.drop_first(), now, window, (budget - 1) as nat)
    } else {
        seq![hits[0]] + evicted(hits.drop_first(), now, window, budget)
    }
}

/// The keys of `hits` are pairwise distinct.
pub open spec fn unique_keys(hits: Seq<(String, Vec<u64>)>) -> bool {
    forall|i: int, j: int|
        0 <= i < j < hits.len() ==> #[trigger] hits[i].0@ != #[trigger] hits[j].0@
}

/// The hits recorded for `key` (empty when the key is unknown).
pub open spec fn bucket(hits: Seq<(String, Vec<u64>)>, key: Seq<char>) -> Seq<u64> {
    if exists|i: int| 0 <= i < hits.len() && #[trigger] hits[i].0@ == key {
        let i = choose|i: int| 0 <= i < hits.len() && #[trigger] hits[i].0@ == key;
        hits[i].1@
    } else {
        Seq::empty()
    }
}

/// With distinct keys, the bucket of the key at `i` is the entry at `i`.
pub proof fn lemma_bucket_at(hits: Seq<(String, Vec<u64>)>, i: int)
    requires
        unique_keys(hits),
        0 <= i < hits.len(),
    ensures
        bucket(hits, hits[i].0@) == hits[i].1@,
{
    let k = hits[i].0@;
    assert(hits[i].0@ == k);
    let j = choose|j: int| 0 <= j < hits.len() && #[trigger] hits[j].0@ == k;
    if j < i {
        assert(hits[j].0@ != hits[i].0@);
    } else if j > i {
        assert(hits[i].0@ != hits[j].0@);
    }
}

/// An unknown key has an empty bucket.
pub proof fn lemma_bucket_absent(hits: Seq<(String, Vec<u64>)>, k: Seq<char>)
    requires
        forall|i: int| 0 <= i < hits.len() ==> #[trigger] hits[i].0@ != k,
    ensures
        bucket(hits, k) == Seq::<u64>::empty(),
{
}

/// A sliding-window limiter of requests per client key.
pub struct RateLimiter {
    limit: usize,
    window_ms: u64,
    hits: Vec<(String, Vec<u64>)>,
}

impl RateLimiter {
    /// Keys are unique, the limit is at least 1 and the window at least 500 ms.
    pub open spec fn wf(&self) -> bool {
        &&& self.limit_spec() >= 1
        &&& self.window_spec() >= 500
        &&& unique_keys(self.hits_spec())
    }

    /// At most `limit` requests are allowed per key inside the window.
    pub closed spec fn limit_spec(&self) -> nat {
        self.limit as nat
    }

    /// Window length in milliseconds.
    pub closed spec fn window_spec(&self) -> nat {
        self.window_ms as nat
    }

    /// The recorded hits per key.
    pub closed spec fn hits_spec(&self) -> Seq<(String, Vec<u64>)> {
        self.hits@
    }

    /// A limiter allowing `limit` requests (at least 1) per `window_ms` milliseconds (at
    /// least 500).
    pub fn new(limit: usize, window_ms: u64) -> (r: RateLimiter)
        ensures
            r.wf(),
            r.limit_spec() == if limit < 1 { 1 } else { limit as nat },
            r.window_spec() == if window_ms < 500 { 500 } else { window_ms as nat },
            forall|k: Seq<char>| #[trigger] bucket(r.hits_spec(), k).len() == 0,
    {
        RateLimiter {
            limit: if limit < 1 { 1 } else { limit },
            window_ms: if window_ms < 500 { 500 } else { window_ms },
            hits: Vec::new(),
        }
    }

    /// Records a request from `key` at time `now_ms` (monotonic milliseconds) and answers
    /// whether it is allowed: it is when fewer than `limit` hits of `key` are inside the
    /// window. The key's bucket keeps only the hits inside the window, plus `now_ms` when
    /// allowed. When an allowed request leaves more than 4096 keys, up to 512 stale buckets of
    /// other keys are dropped; no other bucket changes.
    pub fn allow(&mut self, key: &str, now_ms: u64) -> (r: bool)
        requires
            old(self).wf(),
        ensures
            final(self).wf(),
            final(self).limit_spec() == old(self).limit_spec(),
            final(self).window_spec() == old(self).window_spec(),
            r == (recent(bucket(old(self).hits_spec(), key@), now_ms as int, old(self).window_spec() as int).len()
                < old(self).limit_spec()),
            bucket(final(self).hits_spec(), key@) == if r {
                recent(bucket(old(self).hits_spec(), key@), now_ms as int, old(self).window_spec() as int).push(now_ms)
            } else {
                recent(bucket(old(self).hits_spec(), key@), now_ms as int, old(self).window_spec() as int)
            },
            forall|k: Seq<char>|
                k != key@ && !stale(bucket(old(self).hits_spec(), k), now_ms as int, old(self).window_spec() as int)
                    ==> #[trigger] bucket(final(self).hits_spec(), k) == bucket(old(self).hits_spec(), k),
            forall|k: Seq<char>|
                k != key@ ==> (#[trigger] bucket(final(self).hits_spec(), k) == bucket(old(self).hits_spec(), k)
                    || bucket(final(self).hits_spec(), k).len() == 0),
            !r ==> forall|k: Seq<char>| k != key@ ==> #[trigger] bucket(final(self).hits_spec(), k)
                == bucket(old(self).hits_spec(), k),
    {
        let ghost old_hits = self.hits@;
        let ghost w = self.window_ms as int;
        let kc = chars_of(key);
        let idx = match self.find_key(&kc) {
            Some(i) => {
                proof {
                    lemma_bucket_at(self.hits@, i as int);
                }
                i
            },
            None => {
                proof {
                    lemma_bucket_absent(self.hits@, kc@);
                }
                self.hits.push((string_of(&kc), Vec::new()));
                proof {
                    assert(self.hits@.len() == old_hits.len() + 1);
                    assert forall|i: int, j: int| 0 <= i < j < self.hits@.len() implies #[trigger] self.hits@[i].0@ != #[trigger] self.hits@[j].0@ by {
                        if j < old_hits.len() {
                            assert(self.hits@[i] == old_hits[i] && self.hits@[j] == old_hits[j]);
                        } else {
                            assert(self.hits@[i] == old_hits[i]);
                        }
                    }
                    lemma_bucket_at(self.hits@, old_hits.len() as int);
                    assert forall|k: Seq<char>| k != key@ implies #[trigger] bucket(self.hits@, k) == bucket(old_hits, k) by {
                        if exists|i: int| 0 <= i < old_hits.len() && #[trigger] old_hits[i].0@ == k {
                            let j = choose|i: int| 0 <= i < old_hits.len() && #[trigger] old_hits[i].0@ == k;
                            lemma_bucket_at(old_hits, j);
                            assert(self.hits@[j] == old_hits[j]);
                            lemma_bucket_at(self.hits@, j);
                        } else {
                            assert forall|i: int| 0 <= i < self.hits@.len() implies #[trigger] self.hits@[i].0@ != k by {
                                if i < old_hits.len() {
                                    assert(self.hits@[i] == old_hits[i]);
                                }
                            }
                        }
                    }
                }
                self.hits.len() - 1
            },
        };
        let ghost hits1 = self.hits@;
        assert(bucket(hits1, key@) == bucket(old_hits, key@));
        assert(hits1[idx as int].0@ == key@);
        let mut kept: Vec<u64> = Vec::new();
        let mut i: usize = 0;
        let n = self.hits[idx].1.len();
        while i < n
            invariant
                idx < self.hits@.len(),
                self.hits@ == hits1,
                n == hits1[idx as int].1@.len(),
                w == self.window_ms as int,
                i <= n,
                kept@ == recent(hits1[idx as int].1@.take(i as int), now_ms as int, w),
            decreases n - i,
        {
            let t = self.hits[idx].1[i];
            let ghost pre = hits1[idx as int].1@.take(i as int);
            assert(hits1[idx as int].1@.take(i + 1).drop_last() =~= pre);
            if (t as u128) + (self.window_ms as u128) > now_ms as u128 {
                kept.push(t);
            }
            i = i + 1;
        }
        assert(hits1[idx as int].1@.take(n as int) =~= hits1[idx as int].1@);
        let ghost filtered = kept@;
        assert(filtered == recent(bucket(old_hits, key@), now_ms as int, w));
        let allowed = kept.len() < self.limit;
        if allowed {
            kept.push(now_ms);
        }
        self.hits.set(idx, (string_of(&kc), kept));
        let ghost hits2 = self.hits@;
        proof {
            assert(hits2 == hits1.update(idx as int, hits2[idx as int]));
            assert forall|a: int, b: int| 0 <= a < b < hits2.len() implies #[trigger] hits2[a].0@ != #[trigger] hits2[b].0@ by {
                assert(hits1[a].0@ != hits1[b].0@);
            }
            lemma_bucket_at(hits2, idx as int);
            assert forall|k: Seq<char>| k != key@ implies #[trigger] bucket(hits2, k) == bucket(hits1, k) by {
                if exists|i: int| 0 <= i < hits1.len() && #[trigger] hits1[i].0@ == k {
                    let j = choose|i: int| 0 <= i < hits1.len() && #[trigger] hits1[i].0@ == k;
                    assert(j != idx);
                    lemma_bucket_at(hits1, j);
                    lemma_bucket_at(hits2, j);
                } else {
                    assert forall|i: int| 0 <= i < hits2.len() implies #[trigger] hits2[i].0@ != k by {
                        if i != idx {
                            assert(hits2[i] == hits1[i]);
                        }
                    }
                }
            }
        }
        if !allowed {
            return false;
        }
        if self.hits.len() > 4096 {
            self.evict_stale(now_ms, idx);
        }
        true
    }

    /// Drops the first 512 stale buckets (all of them when there are fewer), keeping the
    /// others in order; never the one at `keep`.
    fn evict_stale(&mut self, now_ms: u64, keep: usize)
        requires
            old(self).wf(),
            keep < old(self).hits@.len(),
            !stale(old(self).hits@[keep as int].1@, now_ms as int, old(self).window_ms as int),
        ensures
            final(self).hits@ == evicted(old(self).hits@, now_ms as int, old(self).window_ms as int, 512),
            final(self).wf(),
            final(self).limit == old(self).limit,
            final(self).window_ms == old(self).window_ms,
            forall|k: Seq<char>|
                !stale(bucket(old(self).hits@, k), now_ms as int, old(self).window_ms as int)
                    ==> #[trigger] bucket(final(self).hits@, k) == bucket(old(self).hits@, k),
            forall|k: Seq<char>|
                #[trigger] bucket(final(self).hits@, k) == bucket(old(self).hits@, k)
                    || bucket(final(self).hits@, k).len() == 0,
    {
        let ghost h = self.hits@;
        let ghost w = self.window_ms as int;
        let win = self.window_ms;
        let mut rest: Vec<(String, Vec<u64>)> = Vec::new();
        std::mem::swap(&mut rest, &mut self.hits);
        let mut out: Vec<(String, Vec<u64>)> = Vec::new();
        let mut removed: usize = 0;
        let ghost mut i: int = 0;
        while rest.len() > 0
            invariant
                unique_keys(h),
                w == win as int,
                0 <= i <= h.len(),
                rest@ == h.subrange(i, h.len() as int),
                removed <= 512,
                out@ + evicted(rest@, now_ms as int, w, (512 - removed) as nat) == evicted(h, now_ms as int, w, 512),
                unique_keys(out@),
                forall|m: int| 0 <= m < out@.len() ==> exists|j: int| 0 <= j < i && #[trigger] out@[m] == h[j],
                forall|j: int| 0 <= j < i && !stale(h[j].1@, now_ms as int, w) ==> exists|m: int| 0 <= m < out@.len() && #[trigger] out@[m] == h[j],
            decreases rest.len(),
        {
            let ghost rest0 = rest@;
            let e = rest.remove(0);
            assert(e == h[i]);
            assert(rest0[0] == e);
            assert(rest@ =~= rest0.drop_first());
            let ghost budget0: nat = (512 - removed) as nat;
            let n = e.1.len();
            let is_stale = n == 0 || (e.1[n - 1] as u128) + (win as u128) < now_ms as u128;
            assert(is_stale == stale(h[i].1@, now_ms as int, w));
            let ghost pre0 = out@;
            if is_stale && removed < 512 {
                removed = removed + 1;
                assert(evicted(rest0, now_ms as int, w, budget0) == evicted(rest@, now_ms as int, w, (512 - removed) as nat));
            } else {
                assert(evicted(rest0, now_ms as int, w, budget0) == seq![e] + evicted(rest@, now_ms as int, w, budget0));
                proof {
                    assert forall|m: int| 0 <= m < out@.len() implies #[trigger] out@[m].0@ != e.0@ by {
                        let j = choose|j: int| 0 <= j < i && #[trigger] out@[m] == h[j];
                        assert(h[j].0@ != h[i].0@);
                    }
                }
                let ghost pre = out@;
                out.push(e);
                proof {
                    assert forall|a: int, b: int| 0 <= a < b < out@.len() implies #[trigger] out@[a].0@ != #[trigger] out@[b].0@ by {
                        if b < pre.len() {
                            assert(out@[a] == pre[a] && out@[b] == pre[b]);
                        } else {
                            assert(out@[a] == pre[a]);
                        }
                    }
                    assert(out@[pre.len() as int] == h[i]);
                    assert(out@ + evicted(rest@, now_ms as int, w, budget0) =~= pre + (seq![e] + evicted(rest@, now_ms as int, w, budget0)));
                }
            }
            proof {
                assert forall|m: int| 0 <= m < out@.len() implies exists|j: int| 0 <= j < i + 1 && #[trigger] out@[m] == h[j] by {
                    if m < pre0.len() {
                        assert(out@[m] == pre0[m]);
                    }
                }
                assert forall|j: int| 0 <= j < i + 1 && !stale(h[j].1@, now_ms as int, w) implies exists|m: int| 0 <= m < out@.len() && #[trigger] out@[m] == h[j] by {
                    if j < i {
                        let m = choose|m: int| 0 <= m < pre0.len() && #[trigger] pre0[m] == h[j];
                        assert(out@[m] == pre0[m]);
                    } else {
                        assert(out@[out@.len() - 1] == h[j]);
                    }
                }
                i = i + 1;
                assert(rest@ =~= h.subrange(i, h.len() as int));
            }
        }
        proof {
            assert(i == h.len());
            assert(out@ + evicted(rest@, now_ms as int, w, (512 - removed) as nat) =~= out@);
        }
        self.hits = out;
    }

    fn find_key(&self, k: &Vec<char>) -> (r: Option<usize>)
        ensures
            match r {
                Some(i) => i < self.hits@.len() && self.hits@[i as int].0@ == k@,
                None => forall|i: int| 0 <= i < self.hits@.len() ==> #[trigger] self.hits@[i].0@ != k@,
            },
    {
        let mut i: usize = 0;
        while i < self.hits.len()
            invariant
                i <= self.hits.len(),
                forall|m: int| 0 <= m < i ==> #[trigger] self.hits@[m].0@ != k@,
            decreases self.hits.len() - i,
        {
            let kc = chars_of(self.hits[i].0.as_str());
            if eq_chars(&kc, k) {
                return Some(i);
            }
            i = i + 1;
        }
        None
    }
}

} // verus!

verus! {

/// A key is never let through more than `limit` times within the window: when a request is
/// allowed, the key's bucket afterwards holds at most `limit` hits, all of them recent.
pub proof fn law_rate_limit_caps(hits: Seq<u64>, now: int, window: int, limit: nat)
    requires
        recent(hits, now, window).len() < limit,
    ensures
        recent(hits, now, window).push(now as u64).len() <= limit,
{
}

} // verus!

verus! {

/// One call of `allow` for a key, seen from that key's bucket: the bucket's recent hits,
/// with `now` added when fewer than `limit` are recent; and whether the call is let through.
pub open spec fn own_step(b: Seq<u64>, now: u64, window: int, limit: nat) -> (Seq<u64>, bool) {
    let r = recent(b, now as int, window);
    if r.len() < limit {
        (r.push(now), true)
    } else {
        (r, false)
    }
}

/// Whether buckets `bs` and answers `ds` follow the limiter's contract for a run of calls
/// `es`, seen from one key (what `RateLimiter::allow` ensures of that key's bucket, call by
/// call): each event is `(is a call for this key, time)`, times never go
/// back, the bucket starts empty, a call for the key is `own_step`, and a call for another
/// key keeps the bucket or (eviction) empties it when it is stale.
pub open spec fn follows_run(es: Seq<(bool, u64)>, bs: Seq<Seq<u64>>, ds: Seq<bool>, window: int, limit: nat) -> bool {
    &&& bs.len() == es.len() + 1
    &&& ds.len() == es.len()
    &&& bs[0].len() == 0
    &&& forall|i: int, j: int| 0 <= i <= j < es.len() ==> (#[trigger] es[i]).1 <= (#[trigger] es[j]).1
    &&& forall|i: int|
        0 <= i < es.len() ==> if (#[trigger] es[i]).0 {
            (bs[i + 1], ds[i]) == own_step(bs[i], es[i].1, window, limit)
        } else {
            bs[i + 1] == bs[i] || (bs[i + 1].len() == 0 && stale(bs[i], es[i].1 as int, window))
        }
}

/// How many of the first `n` events are calls for the key that were let through at a time
/// `s` with `s + window > t` (inside the window that ends at `t`).
pub open spec fn accepted_in(es: Seq<(bool, u64)>, ds: Seq<bool>, n: int, t: int, window: int) -> nat
    decreases n,
{
    if n <= 0 {
        0
    } else {
        accepted_in(es, ds, n - 1, t, window) + if es[n - 1].0 && ds[n - 1] && es[n - 1].1 + window > t {
            1nat
        } else {
            0nat
        }
    }
}

/// Hits in order, none after `top`.
pub open spec fn sorted_upto(b: Seq<u64>, top: int) -> bool {
    (forall|i: int, j: int| 0 <= i <= j < b.len() ==> b[i] <= b[j]) && (forall|i: int| 0 <= i < b.len() ==> b[i] <= top)
}

proof fn lemma_recent_sub(b: Seq<u64>, now: int, window: int)
    ensures
        forall|i: int| 0 <= i < recent(b, now, window).len() ==> exists|k: int| 0 <= k < b.len() && #[trigger] recent(b, now, window)[i] == b[k],
    decreases b.len(),
{
    if b.len() > 0 {
        lemma_recent_sub(b.drop_last(), now, window);
        let r = recent(b.drop_last(), now, window);
        assert forall|i: int| 0 <= i < recent(b, now, window).len() implies exists|k: int| 0 <= k < b.len() && #[trigger] recent(b, now, window)[i] == b[k] by {
            if i < r.len() {
                let k = choose|k: int| 0 <= k < b.drop_last().len() && r[i] == b.drop_last()[k];
                assert(recent(b, now, window)[i] == r[i]);
                assert(b[k] == b.drop_last()[k]);
            } else {
                assert(recent(b, now, window)[i] == b.last());
            }
        }
    }
}

proof fn lemma_recent_sorted(b: Seq<u64>, now: int, window: int, top: int)
    requires
        sorted_upto(b, top),
    ensures
        sorted_upto(recent(b, now, window), top),
        forall|i: int| 0 <= i < recent(b, now, window).len() ==> #[trigger] recent(b, now, window)[i] + window > now,
    decreases b.len(),
{
    if b.len() > 0 {
        let p = b.drop_last();
        assert(sorted_upto(p, top));
        lemma_recent_sorted(p, now, window, top);
        lemma_recent_sub(p, now, window);
        let r = recent(p, now, window);
        if b.last() + window > now {
            assert forall|i: int, j: int| 0 <= i <= j < r.push(b.last()).len() implies r.push(b.last())[i] <= r.push(b.last())[j] by {
                if j == r.len() {
                    let k = choose|k: int| 0 <= k < p.len() && r[i] == p[k];
                    if i < r.len() {
                        assert(b[k] <= b[b.len() - 1]);
                    }
                }
            }
        }
    }
}

proof fn lemma_recent_twice(b: Seq<u64>, n1: int, n2: int, window: int)
    requires
        n1 <= n2,
    ensures
        recent(recent(b, n1, window), n2, window) == recent(b, n2, window),
    decreases b.len(),
{
    if b.len() > 0 {
        lemma_recent_twice(b.drop_last(), n1, n2, window);
        let r = recent(b.drop_last(), n1, window);
        if b.last() + window > n1 {
            assert(r.push(b.last()).drop_last() =~= r);
            assert(r.push(b.last()).last() == b.last());
        }
    }
}

proof fn lemma_recent_push(b: Seq<u64>, x: u64, t: int, window: int)
    ensures
        recent(b.push(x), t, window) == if x + window > t { recent(b, t, window).push(x) } else { recent(b, t, window) },
{
    assert(b.push(x).drop_last() =~= b);
    assert(b.push(x).last() == x);
}

proof fn lemma_recent_stale(b: Seq<u64>, now: int, t: int, window: int, top: int)
    requires
        sorted_upto(b, top),
        stale(b, now, window),
        now <= t,
    ensures
        recent(b, t, window).len() == 0,
    decreases b.len(),
{
    if b.len() > 0 {
        let p = b.drop_last();
        assert(sorted_upto(p, top));
        if p.len() > 0 {
            assert(p.last() <= b.last());
            lemma_recent_stale(p, now, t, window, top);
        } else {
            assert(recent(p, t, window) =~= Seq::<u64>::empty());
        }
    }
}

proof fn lemma_accepted_mono(es: Seq<(bool, u64)>, ds: Seq<bool>, n: int, t: int, window: int)
    requires
        0 <= n <= es.len(),
        forall|i: int| 0 <= i < n ==> (#[trigger] es[i]).1 + window <= t,
    ensures
        accepted_in(es, ds, n, t, window) == 0,
    decreases n,
{
    if n > 0 {
        lemma_accepted_mono(es, ds, n - 1, t, window);
    }
}

/// The run invariant: the bucket after `n` events is sorted, holds no hit later than the
/// last event, and its recent part, at any time from the last event on, counts exactly the
/// calls let through inside that window.
proof fn lemma_run_invariant(es: Seq<(bool, u64)>, bs: Seq<Seq<u64>>, ds: Seq<bool>, window: int, limit: nat, n: int)
    requires
        follows_run(es, bs, ds, window, limit),
        window > 0,
        0 <= n <= es.len(),
    ensures
        sorted_upto(bs[n], if n == 0 { 0 } else { es[n - 1].1 as int }),
        forall|t: int|
            (n == 0 || t >= es[n - 1].1) ==> #[trigger] recent(bs[n], t, window).len() == accepted_in(es, ds, n, t, window),
    decreases n,
{
    if n == 0 {
        assert forall|t: int| (n == 0 || t >= es[n - 1].1) implies #[trigger] recent(bs[n], t, window).len() == accepted_in(es, ds, n, t, window) by {
            assert(recent(bs[0], t, window) =~= Seq::<u64>::empty());
        }
    } else {
        lemma_run_invariant(es, bs, ds, window, limit, n - 1);
        let i = n - 1;
        let e = es[i];
        let prev_top: int = if i == 0 { 0 } else { es[i - 1].1 as int };
        let b = bs[i];
        if i > 0 {
            assert(es[i - 1].1 <= es[i].1);
        }
        assert(sorted_upto(b, e.1 as int));
        if e.0 {
            let r = recent(b, e.1 as int, window);
            lemma_recent_sorted(b, e.1 as int, window, e.1 as int);
            if r.len() < limit {
                assert(bs[n] == r.push(e.1));
                assert(sorted_upto(bs[n], e.1 as int));
            } else {
                assert(bs[n] == r);
            }
            assert forall|t: int| t >= es[n - 1].1 implies #[trigger] recent(bs[n], t, window).len() == accepted_in(es, ds, n, t, window) by {
                lemma_recent_twice(b, e.1 as int, t, window);
                assert(recent(b, t, window).len() == accepted_in(es, ds, i, t, window));
                if r.len() < limit {
                    lemma_recent_push(r, e.1, t, window);
                    assert(ds[i]);
                } else {
                    assert(!ds[i]);
                }
            }
        } else {
            if bs[n] == b {
                assert(sorted_upto(bs[n], e.1 as int));
            } else {
                assert(bs[n].len() == 0);
                assert(sorted_upto(bs[n], e.1 as int));
            }
            assert forall|t: int| t >= es[n - 1].1 implies #[trigger] recent(bs[n], t, window).len() == accepted_in(es, ds, n, t, window) by {
                assert(recent(b, t, window).len() == accepted_in(es, ds, i, t, window));
                if bs[n] != b {
                    lemma_recent_stale(b, e.1 as int, t, window, e.1 as int);
                    assert(recent(bs[n], t, window) =~= Seq::<u64>::empty());
                }
            }
        }
    }
}

/// The sliding window, over any run of calls (for this key and others interleaved): when a
/// call for a key is let through at time `t`, at most `limit` calls for that key were let
/// through in the window `(t - window, t]`, this one included; and a call is let through
/// exactly when fewer than `limit` were let through in the window that ends at its time, so
/// a key with none let through in the last window is let through again (refused calls are
/// not counted).
pub proof fn law_rate_limit_window(es: Seq<(bool, u64)>, bs: Seq<Seq<u64>>, ds: Seq<bool>, window: int, limit: nat)
    requires
        follows_run(es, bs, ds, window, limit),
        window > 0,
    ensures
        forall|j: int|
            0 <= j < es.len() && (#[trigger] es[j]).0 ==> (ds[j] <==> accepted_in(es, ds, j, es[j].1 as int, window) < limit),
        forall|j: int|
            0 <= j < es.len() && (#[trigger] es[j]).0 && ds[j] ==> accepted_in(es, ds, j + 1, es[j].1 as int, window) <= limit,
{
    assert forall|j: int| 0 <= j < es.len() && (#[trigger] es[j]).0 implies (ds[j] <==> accepted_in(es, ds, j, es[j].1 as int, window) < limit)
        && (ds[j] ==> accepted_in(es, ds, j + 1, es[j].1 as int, window) <= limit) by {
        lemma_run_invariant(es, bs, ds, window, limit, j);
        let t = es[j].1 as int;
        if j > 0 {
            assert(es[j - 1].1 <= es[j].1);
        }
        assert(recent(bs[j], t, window).len() == accepted_in(es, ds, j, t, window));
        assert((bs[j + 1], ds[j]) == own_step(bs[j], es[j].1, window, limit));
    }
}

/// How many of the first `n` events are calls for the key let through at a time in
/// `[lo, hi)`.
pub open spec fn accepted_between(es: Seq<(bool, u64)>, ds: Seq<bool>, n: int, lo: int, hi: int) -> nat
    decreases n,
{
    if n <= 0 {
        0
    } else {
        accepted_between(es, ds, n - 1, lo, hi) + if es[n - 1].0 && ds[n - 1] && lo <= es[n - 1].1 < hi {
            1nat
        } else {
            0nat
        }
    }
}

/// Calls let through in `[lo, lo + window)` are all inside the window that ends at any `t`
/// before `lo + window`.
proof fn lemma_between_within(es: Seq<(bool, u64)>, ds: Seq<bool>, n: int, lo: int, t: int, window: int)
    requires
        t < lo + window,
    ensures
        accepted_between(es, ds, n, lo, lo + window) <= accepted_in(es, ds, n, t, window),
    decreases n,
{
    if n > 0 {
        lemma_between_within(es, ds, n - 1, lo, t, window);
    }
}

/// The count over a prefix of the run stays within the limit.
proof fn lemma_interval_upto(
    es: Seq<(bool, u64)>,
    ds: Seq<bool>,
    window: int,
    limit: nat,
    lo: int,
    n: int,
)
    requires
        0 <= n <= es.len() == ds.len(),
        forall|j: int|
            0 <= j < es.len() && (#[trigger] es[j]).0 && ds[j] ==> accepted_in(es, ds, j + 1, es[j].1 as int, window) <= limit,
    ensures
        accepted_between(es, ds, n, lo, lo + window) <= limit,
    decreases n,
{
    if n > 0 {
        let j = n - 1;
        if es[j].0 && ds[j] && lo <= es[j].1 < lo + window {
            lemma_between_within(es, ds, n, lo, es[j].1 as int, window);
        } else {
            lemma_interval_upto(es, ds, window, limit, lo, n - 1);
        }
    }
}

/// Sliding-window limit: over any run of calls, in every interval `[t, t + window)` at most
/// `limit` of the key's calls are let through.
pub proof fn law_rate_limit_interval(
    es: Seq<(bool, u64)>,
    bs: Seq<Seq<u64>>,
    ds: Seq<bool>,
    window: int,
    limit: nat,
    t: int,
)
    requires
        follows_run(es, bs, ds, window, limit),
        window > 0,
    ensures
        accepted_between(es, ds, es.len() as int, t, t + window) <= limit,
{
    law_rate_limit_window(es, bs, ds, window, limit);
    lemma_interval_upto(es, ds, window, limit, t, es.len() as int);
}

/// No call let through inside the window that ends at `t` counts nothing.
proof fn lemma_none_accepted(es: Seq<(bool, u64)>, ds: Seq<bool>, n: int, t: int, window: int)
    requires
        forall|i: int| 0 <= i < n && (#[trigger] es[i]).0 && ds[i] ==> es[i].1 + window <= t,
    ensures
        accepted_in(es, ds, n, t, window) == 0,
    decreases n,
{
    if n > 0 {
        lemma_none_accepted(es, ds, n - 1, t, window);
    }
}

/// Re-admission: a call for the key is let through when none of the key's calls was let
/// through in the window before it (refused calls do not extend a block).
pub proof fn law_rate_limit_readmits(
    es: Seq<(bool, u64)>,
    bs: Seq<Seq<u64>>,
    ds: Seq<bool>,
    window: int,
    limit: nat,
    j: int,
)
    requires
        follows_run(es, bs, ds, window, limit),
        window > 0,
        limit >= 1,
        0 <= j < es.len(),
        es[j].0,
        forall|i: int| 0 <= i < j && (#[trigger] es[i]).0 && ds[i] ==> es[i].1 + window <= es[j].1,
    ensures
        ds[j],
{
    law_rate_limit_window(es, bs, ds, window, limit);
    lemma_none_accepted(es, ds, j, es[j].1 as int, window);
    assert(es[j].0);
}

} // verus!

verus! {

/// Loopback URLs are let through. Where the trimmed URL parses with scheme `http` or
/// `https`, no user name, no password and a host that lower-cases to `localhost`,
/// `127.0.0.1` or `[::1]`, it is accepted and answered without its trailing slashes.
pub proof fn law_loopback_url_accepted(url: Seq<char>, name: Seq<char>, scheme: Seq<char>, host: Seq<char>)
    requires
        trim(url).len() > 0,
        url_parts(trim(url)) == Some((scheme, Seq::<char>::empty(), false, Some(host))),
        scheme == "http"@ || scheme == "https"@,
        lower(host) == "localhost"@ || lower(host) == "127.0.0.1"@ || lower(host) == "[::1]"@,
    ensures
        loopback_http_verdict(url, name) == Ok::<Seq<char>, Seq<char>>(strip_trailing(trim(url), '/')),
{
    reveal_strlit("localhost");
    reveal_strlit("127.0.0.1");
    reveal_strlit("[::1]");
    reveal_strlit("::1");
    let h = lower(host);
    assert(h.len() > 0);
    if h == "[::1]"@ {
        assert(unbracket(h) =~= "::1"@);
    }
}

/// Only loopback URLs are let through: an accepted URL is the trimmed URL without its
/// trailing slashes, and it parses with scheme `http` or `https`, no credentials, and a
/// host that lower-cases to `127.0.0.1`, `localhost`, a bracketed or bare `::1`, or an
/// address that parses as loopback.
pub proof fn law_loopback_url_only(url: Seq<char>, name: Seq<char>)
    ensures
        loopback_http_verdict(url, name) matches Ok(s) ==> (url_parts(trim(url)) matches Some((scheme, user, pw, host))
            && s == strip_trailing(trim(url), '/') && (scheme == "http"@ || scheme
            == "https"@) && user.len() == 0 && !pw && ({
            let h = lower(
                match host {
                    Some(x) => x,
                    None => Seq::empty(),
                },
            );
            h == "127.0.0.1"@ || h == "localhost"@ || unbracket(h) == "::1"@ || ip_parse(unbracket(h)) matches Some(
                (_, true, _),
            )
        })),
{
}

/// Refusals of outbound URLs: an empty one; one that does not parse or whose scheme is not
/// `http` or `https`; one with a user name or password; and one whose host (lower-cased,
/// brackets removed for the address test) is neither `127.0.0.1`, `localhost`, `::1` nor a
/// loopback address, each with its message naming the setting.
pub proof fn law_loopback_url_refusals(url: Seq<char>, name: Seq<char>)
    ensures
        trim(url).len() == 0 ==> loopback_http_verdict(url, name) == Err::<Seq<char>, Seq<char>>(
            name + " is empty"@,
        ),
        trim(url).len() > 0 && url_parts(trim(url)) is None ==> loopback_http_verdict(url, name) == Err::<
            Seq<char>,
            Seq<char>,
        >(name + " scheme must be http or https"@),
        trim(url).len() > 0 && (url_parts(trim(url)) matches Some((scheme, _, _, _)) && scheme != "http"@
            && scheme != "https"@) ==> loopback_http_verdict(url, name) == Err::<Seq<char>, Seq<char>>(
            name + " scheme must be http or https"@,
        ),
        trim(url).len() > 0 && (url_parts(trim(url)) matches Some((scheme, user, pw, _)) && (scheme == "http"@
            || scheme == "https"@) && (user.len() > 0 || pw)) ==> loopback_http_verdict(url, name) == Err::<
            Seq<char>,
            Seq<char>,
        >(name + " must not embed credentials"@),
        trim(url).len() > 0 && (url_parts(trim(url)) matches Some((scheme, user, pw, Some(host))) && (scheme
            == "http"@ || scheme == "https"@) && user.len() == 0 && !pw && lower(host).len() > 0 && lower(host)
            != "127.0.0.1"@ && lower(host) != "localhost"@ && unbracket(lower(host)) != "::1"@ && !(ip_parse(
            unbracket(lower(host)),
        ) matches Some((_, true, _)))) ==> loopback_http_verdict(url, name) == Err::<Seq<char>, Seq<char>>(
            name + " must target loopback (got "@ + lower(url_parts(trim(url))->Some_0.3->Some_0) + ")"@,
        ),
{
    if trim(url).len() > 0 {
        if let Some((scheme, user, pw, host)) = url_parts(trim(url)) {
            if user.len() > 0 {
                assert(user != Seq::<char>::empty());
            }
            if user.len() == 0 {
                assert(user =~= Seq::<char>::empty());
            }
        }
    }
}

} // verus!
