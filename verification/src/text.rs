//! Character-level text helpers with exact specifications.
//!
//! Text handled by the library's logic is read as a sequence of `char`s; every helper here
//! is proved against a spec function over `Seq<char>`.
use vstd::prelude::*;

verus! {

/// Unicode `White_Space` (the set `str::trim` and `char::is_whitespace` use).
pub open spec fn is_ws(c: char) -> bool {
    ||| ('\u{9}' <= c && c <= '\u{d}')
    ||| c == ' '
    ||| c == '\u{85}'
    ||| c == '\u{a0}'
    ||| c == '\u{1680}'
    ||| ('\u{2000}' <= c && c <= '\u{200a}')
    ||| c == '\u{2028}'
    ||| c == '\u{2029}'
    ||| c == '\u{202f}'
    ||| c == '\u{205f}'
    ||| c == '\u{3000}'
}

/// `s` without its leading whitespace.
pub open spec fn trim_start(s: Seq<char>) -> Seq<char>
    decreases s.len(),
{
    if s.len() > 0 && is_ws(s[0]) {
        trim_start(s.drop_first())
    } else {
        s
    }
}

/// `s` without its trailing whitespace.
pub open spec fn trim_end(s: Seq<char>) -> Seq<char>
    decreases s.len(),
{
    if s.len() > 0 && is_ws(s.last()) {
        trim_end(s.drop_last())
    } else {
        s
    }
}

/// `s` without leading and trailing whitespace (`str::trim`).
pub open spec fn trim(s: Seq<char>) -> Seq<char> {
    trim_end(trim_start(s))
}

/// `n` occurs in `h` at position `i`.
pub open spec fn occurs_at(h: Seq<char>, n: Seq<char>, i: int) -> bool {
    0 <= i && i + n.len() <= h.len() && h.subrange(i, i + n.len()) == n
}

/// `n` occurs somewhere in `h` (`str::contains`).
pub open spec fn contains(h: Seq<char>, n: Seq<char>) -> bool {
    exists|i: int| occurs_at(h, n, i)
}

/// `h` begins with `n` (`str::starts_with`).
pub open spec fn has_prefix(h: Seq<char>, n: Seq<char>) -> bool {
    n.len() <= h.len() && h.subrange(0, n.len() as int) == n
}

/// `h` ends with `n` (`str::ends_with`).
pub open spec fn has_suffix(h: Seq<char>, n: Seq<char>) -> bool {
    n.len() <= h.len() && h.subrange(h.len() - n.len(), h.len() as int) == n
}

/// `c` occurs in `s`.
pub open spec fn has_char(s: Seq<char>, c: char) -> bool {
    exists|i: int| 0 <= i < s.len() && s[i] == c
}

/// The lowercase form of a string (`str::to_lowercase`, Unicode rules).
pub uninterp spec fn lower(s: Seq<char>) -> Seq<char>;

/// The uppercase form of a string (`str::to_uppercase`, Unicode rules).
pub uninterp spec fn upper(s: Seq<char>) -> Seq<char>;

/// Appends one character to a `String` (std `String::push`).
#[verifier::external_body]
pub(crate) fn push_char(s: &mut String, c: char)
    ensures
        final(s)@ == old(s)@.push(c),
{
    s.push(c)
}

/// The ASCII lowercase of `c`: `A`..`Z` become `a`..`z`, anything else is kept.
pub open spec fn ascii_lower(c: char) -> char {
    if 'A' <= c && c <= 'Z' {
        ((c as u32) + 32) as char
    } else {
        c
    }
}

/// Lowercases a string slice with std `str::to_lowercase`. Its lowercase mapping is
/// Unicode's, in which an ASCII letter maps to its ASCII lowercase and every other ASCII
/// character to itself, so text made only of ASCII characters lowercases character by
/// character, as `str::to_ascii_lowercase` would.
#[verifier::external_body]
pub(crate) fn to_lower(s: &str) -> (r: String)
    ensures
        r@ == lower(s@),
        (forall|i: int| 0 <= i < s@.len() ==> (#[trigger] s@[i] as u32) < 0x80) ==> r@.len() == s@.len()
            && forall|i: int| 0 <= i < s@.len() ==> #[trigger] r@[i] == ascii_lower(s@[i]),
{
    s.to_lowercase()
}

/// Uppercases a string slice with std `str::to_uppercase`.
#[verifier::external_body]
pub(crate) fn to_upper(s: &str) -> (r: String)
    ensures
        r@ == upper(s@),
{
    s.to_uppercase()
}

/// The characters of a string slice, in order.
pub fn chars_of(s: &str) -> (v: Vec<char>)
    ensures
        v@ == s@,
{
    let mut v: Vec<char> = Vec::new();
    for c in it: s.chars()
        invariant
            v@ == it.seq().take(it.index() as int),
    {
        v.push(c);
    }
    v
}

/// Builds a `String` holding exactly the given characters.
pub fn string_of(v: &Vec<char>) -> (s: String)
    ensures
        s@ == v@,
{
    let mut s = String::new();
    let mut i: usize = 0;
    while i < v.len()
        invariant
            i <= v.len(),
            s@ == v@.take(i as int),
        decreases v.len() - i,
    {
        push_char(&mut s, v[i]);
        assert(v@.take(i as int).push(v@[i as int]) =~= v@.take(i + 1));
        i = i + 1;
    }
    assert(v@.take(v.len() as int) =~= v@);
    s
}

/// Lowercases a character sequence (`str::to_lowercase`).
pub fn lower_chars(v: &Vec<char>) -> (r: Vec<char>)
    ensures
        r@ == lower(v@),
        (forall|i: int| 0 <= i < v@.len() ==> (#[trigger] v@[i] as u32) < 0x80) ==> r@.len() == v@.len()
            && forall|i: int| 0 <= i < v@.len() ==> #[trigger] r@[i] == ascii_lower(v@[i]),
{
    let s = string_of(v);
    let l = to_lower(s.as_str());
    chars_of(l.as_str())
}

/// Uppercases a character sequence (`str::to_uppercase`).
pub fn upper_chars(v: &Vec<char>) -> (r: Vec<char>)
    ensures
        r@ == upper(v@),
{
    let s = string_of(v);
    let l = to_upper(s.as_str());
    chars_of(l.as_str())
}

/// Whitespace test (`char::is_whitespace`).
pub fn is_ws_char(c: char) -> (b: bool)
    ensures
        b == is_ws(c),
{
    ('\u{9}' <= c && c <= '\u{d}') || c == ' ' || c == '\u{85}' || c == '\u{a0}' || c
        == '\u{1680}' || ('\u{2000}' <= c && c <= '\u{200a}') || c == '\u{2028}' || c
        == '\u{2029}' || c == '\u{202f}' || c == '\u{205f}' || c == '\u{3000}'
}

/// The subrange `[a, b)` of `v`.
pub fn slice_chars(v: &Vec<char>, a: usize, b: usize) -> (r: Vec<char>)
    requires
        a <= b <= v.len(),
    ensures
        r@ == v@.subrange(a as int, b as int),
{
    let mut r: Vec<char> = Vec::new();
    let mut i = a;
    while i < b
        invariant
            a <= i <= b <= v.len(),
            r@ == v@.subrange(a as int, i as int),
        decreases b - i,
    {
        r.push(v[i]);
        assert(v@.subrange(a as int, i as int).push(v@[i as int]) =~= v@.subrange(
            a as int,
            i + 1,
        ));
        i = i + 1;
    }
    r
}

proof fn lemma_trim_start_step(s: Seq<char>, i: int)
    requires
        0 <= i < s.len(),
        is_ws(s[i]),
    ensures
        trim_start(s.subrange(i, s.len() as int)) == trim_start(s.subrange(i + 1, s.len() as int)),
{
    let t = s.subrange(i, s.len() as int);
    assert(t.drop_first() =~= s.subrange(i + 1, s.len() as int));
}

proof fn lemma_trim_end_step(s: Seq<char>, j: int)
    requires
        0 < j <= s.len(),
        is_ws(s[j - 1]),
    ensures
        trim_end(s.subrange(0, j)) == trim_end(s.subrange(0, j - 1)),
{
    let t = s.subrange(0, j);
    assert(t.drop_last() =~= s.subrange(0, j - 1));
}

/// Leading and trailing whitespace removed (`str::trim`).
pub fn trim_chars(v: &Vec<char>) -> (r: Vec<char>)
    ensures
        r@ == trim(v@),
{
    let n = v.len();
    let mut i: usize = 0;
    assert(v@.subrange(0, n as int) =~= v@);
    while i < n && is_ws_char(v[i])
        invariant
            i <= n == v.len(),
            trim_start(v@) == trim_start(v@.subrange(i as int, n as int)),
        decreases n - i,
    {
        proof {
            lemma_trim_start_step(v@, i as int);
        }
        i = i + 1;
    }
    let ghost ts = v@.subrange(i as int, n as int);
    assert(trim_start(v@) == ts);
    let mut j: usize = n;
    assert(ts.subrange(0, (n - i) as int) =~= ts);
    while j > i && is_ws_char(v[j - 1])
        invariant
            i <= j <= n == v.len(),
            ts == v@.subrange(i as int, n as int),
            trim_end(ts) == trim_end(ts.subrange(0, (j - i) as int)),
        decreases j,
    {
        proof {
            assert(ts[(j - i) - 1] == v@[j - 1]);
            lemma_trim_end_step(ts, (j - i) as int);
        }
        j = j - 1;
    }
    assert(ts.subrange(0, (j - i) as int) =~= v@.subrange(i as int, j as int));
    slice_chars(v, i, j)
}

/// Sequence equality.
pub fn eq_chars(a: &Vec<char>, b: &Vec<char>) -> (r: bool)
    ensures
        r == (a@ == b@),
{
    if a.len() != b.len() {
        return false;
    }
    let mut i: usize = 0;
    while i < a.len()
        invariant
            i <= a.len() == b.len(),
            forall|k: int| 0 <= k < i ==> a@[k] == b@[k],
        decreases a.len() - i,
    {
        if a[i] != b[i] {
            return false;
        }
        i = i + 1;
    }
    assert(a@ =~= b@);
    true
}

/// Whether `n` occurs in `h` at position `i`.
pub fn occurs_at_exec(h: &Vec<char>, n: &Vec<char>, i: usize) -> (r: bool)
    ensures
        r == occurs_at(h@, n@, i as int),
{
    if i > h.len() || n.len() > h.len() - i {
        return false;
    }
    let mut k: usize = 0;
    while k < n.len()
        invariant
            i + n.len() <= h.len(),
            k <= n.len(),
            forall|m: int| 0 <= m < k ==> h@[i + m] == n@[m],
        decreases n.len() - k,
    {
        if h[i + k] != n[k] {
            assert(h@.subrange(i as int, i + n.len())[k as int] != n@[k as int]);
            return false;
        }
        k = k + 1;
    }
    assert(h@.subrange(i as int, i + n.len()) =~= n@);
    true
}

/// Whether `n` occurs in `h` (`str::contains`).
pub fn contains_chars(h: &Vec<char>, n: &Vec<char>) -> (r: bool)
    ensures
        r == contains(h@, n@),
{
    if n.len() > h.len() {
        assert(forall|i: int| !occurs_at(h@, n@, i));
        return false;
    }
    let last = h.len() - n.len();
    let mut i: usize = 0;
    loop
        invariant
            n.len() <= h.len(),
            last == h.len() - n.len(),
            i <= last,
            forall|k: int| 0 <= k < i ==> !occurs_at(h@, n@, k),
        ensures
            forall|k: int| 0 <= k <= last ==> !occurs_at(h@, n@, k),
        decreases last - i,
    {
        if occurs_at_exec(h, n, i) {
            return true;
        }
        if i == last {
            break;
        }
        i = i + 1;
    }
    assert(forall|k: int| !occurs_at(h@, n@, k));
    false
}

/// Whether `h` begins with `n` (`str::starts_with`).
pub fn starts_with_chars(h: &Vec<char>, n: &Vec<char>) -> (r: bool)
    ensures
        r == has_prefix(h@, n@),
{
    occurs_at_exec(h, n, 0)
}

/// Whether `h` ends with `n` (`str::ends_with`).
pub fn ends_with_chars(h: &Vec<char>, n: &Vec<char>) -> (r: bool)
    ensures
        r == has_suffix(h@, n@),
{
    if n.len() > h.len() {
        return false;
    }
    occurs_at_exec(h, n, h.len() - n.len())
}

/// Whether `c` occurs in `s`.
pub fn has_char_exec(s: &Vec<char>, c: char) -> (r: bool)
    ensures
        r == has_char(s@, c),
{
    let mut i: usize = 0;
    while i < s.len()
        invariant
            i <= s.len(),
            forall|k: int| 0 <= k < i ==> s@[k] != c,
        decreases s.len() - i,
    {
        if s[i] == c {
            return true;
        }
        i = i + 1;
    }
    false
}

/// `a` followed by `b`.
pub fn concat_chars(a: &Vec<char>, b: &Vec<char>) -> (r: Vec<char>)
    ensures
        r@ == a@ + b@,
{
    let mut r = a.clone();
    let mut i: usize = 0;
    assert(r@ =~= a@ + b@.take(0));
    while i < b.len()
        invariant
            i <= b.len(),
            r@ == a@ + b@.take(i as int),
        decreases b.len() - i,
    {
        r.push(b[i]);
        assert(a@ + b@.take(i as int).push(b@[i as int]) =~= a@ + b@.take(i + 1));
        i = i + 1;
    }
    assert(b@.take(b.len() as int) =~= b@);
    r
}

} // verus!

verus! {

/// `prefix` followed by `tail`, as a `String`.
pub fn message(prefix: &str, tail: &Vec<char>) -> (m: String)
    ensures
        m@ == prefix@ + tail@,
{
    let p = chars_of(prefix);
    let all = concat_chars(&p, tail);
    string_of(&all)
}

/// The given parts joined with single spaces (`[..].join(" ")`).
pub open spec fn join_space(parts: Seq<Seq<char>>) -> Seq<char>
    decreases parts.len(),
{
    if parts.len() == 0 {
        Seq::empty()
    } else if parts.len() == 1 {
        parts[0]
    } else {
        join_space(parts.drop_last()) + seq![' '] + parts.last()
    }
}

/// The views of a slice of string slices.
pub open spec fn views(parts: Seq<&str>) -> Seq<Seq<char>> {
    Seq::new(parts.len(), |i: int| parts[i]@)
}

/// Joins string slices with single spaces.
pub fn join_with_space(parts: &[&str]) -> (r: Vec<char>)
    ensures
        r@ == join_space(views(parts@)),
{
    let mut r: Vec<char> = Vec::new();
    let mut i: usize = 0;
    while i < parts.len()
        invariant
            i <= parts@.len(),
            r@ == join_space(views(parts@).take(i as int)),
        decreases parts.len() - i,
    {
        let p = chars_of(parts[i]);
        let ghost pre = views(parts@).take(i as int);
        let ghost nxt = views(parts@).take(i + 1);
        assert(nxt.drop_last() =~= pre);
        if i == 0 {
            r = p;
        } else {
            let sp: Vec<char> = vec![' '];
            let t = concat_chars(&r, &sp);
            r = concat_chars(&t, &p);
        }
        i = i + 1;
    }
    assert(views(parts@).take(parts@.len() as int) =~= views(parts@));
    r
}

/// The first of `toks` that occurs in `blob`.
pub open spec fn first_hit(blob: Seq<char>, toks: Seq<Seq<char>>) -> Option<Seq<char>>
    decreases toks.len(),
{
    if toks.len() == 0 {
        None
    } else if contains(blob, toks[0]) {
        Some(toks[0])
    } else {
        first_hit(blob, toks.drop_first())
    }
}

/// The first of `toks` that occurs in `blob`.
pub fn first_hit_exec<'a>(blob: &Vec<char>, toks: &[&'a str]) -> (r: Option<&'a str>)
    ensures
        match r {
            Some(t) => first_hit(blob@, views(toks@)) == Some(t@),
            None => first_hit(blob@, views(toks@)) is None,
        },
{
    let ghost all = views(toks@);
    let mut i: usize = 0;
    assert(all.subrange(0, all.len() as int) =~= all);
    while i < toks.len()
        invariant
            i <= toks@.len() == all.len(),
            all == views(toks@),
            first_hit(blob@, all) == first_hit(blob@, all.subrange(i as int, all.len() as int)),
        decreases toks.len() - i,
    {
        let t = chars_of(toks[i]);
        let ghost rest = all.subrange(i as int, all.len() as int);
        assert(rest[0] == toks@[i as int]@);
        assert(rest.drop_first() =~= all.subrange(i + 1, all.len() as int));
        if contains_chars(blob, &t) {
            return Some(toks[i]);
        }
        i = i + 1;
    }
    None
}

} // verus!

verus! {

/// Position of the first `c` in `s`, or `-1` (`str::find` with a char).
pub open spec fn find_char(s: Seq<char>, c: char) -> int {
    if has_char(s, c) {
        choose|i: int| 0 <= i < s.len() && s[i] == c && forall|j: int| 0 <= j < i ==> s[j] != c
    } else {
        -1
    }
}

/// Position of the last `c` in `s`, or `-1` (`str::rfind` with a char).
pub open spec fn rfind_char(s: Seq<char>, c: char) -> int {
    if has_char(s, c) {
        choose|i: int|
            0 <= i < s.len() && s[i] == c && forall|j: int| i < j < s.len() ==> s[j] != c
    } else {
        -1
    }
}

/// Position of the first occurrence of `n` in `s`, or `-1` (`str::find` with a string).
pub open spec fn find_str(s: Seq<char>, n: Seq<char>) -> int {
    if contains(s, n) {
        choose|i: int| occurs_at(s, n, i) && forall|j: int| 0 <= j < i ==> !occurs_at(s, n, j)
    } else {
        -1
    }
}

/// The first position of `c` in `s`.
pub fn find_char_exec(s: &Vec<char>, c: char) -> (r: Option<usize>)
    ensures
        match r {
            Some(i) => find_char(s@, c) == i && i < s@.len() && s@[i as int] == c,
            None => find_char(s@, c) == -1 && !has_char(s@, c),
        },
{
    let mut i: usize = 0;
    while i < s.len()
        invariant
            i <= s.len(),
            forall|j: int| 0 <= j < i ==> s@[j] != c,
        decreases s.len() - i,
    {
        if s[i] == c {
            proof {
                assert(has_char(s@, c));
                let w = find_char(s@, c);
                assert(0 <= w < s@.len() && s@[w] == c && forall|j: int| 0 <= j < w ==> s@[j] != c);
                if w < i {
                } else if w > i {
                    assert(s@[i as int] != c);
                }
            }
            return Some(i);
        }
        i = i + 1;
    }
    None
}

/// The last position of `c` in `s`.
pub fn rfind_char_exec(s: &Vec<char>, c: char) -> (r: Option<usize>)
    ensures
        match r {
            Some(i) => rfind_char(s@, c) == i && i < s@.len() && s@[i as int] == c,
            None => rfind_char(s@, c) == -1 && !has_char(s@, c),
        },
{
    let mut i: usize = s.len();
    while i > 0
        invariant
            i <= s.len(),
            forall|j: int| i <= j < s.len() ==> s@[j] != c,
        decreases i,
    {
        if s[i - 1] == c {
            proof {
                assert(has_char(s@, c));
                let w = rfind_char(s@, c);
                assert(0 <= w < s@.len() && s@[w] == c && forall|j: int| w < j < s@.len() ==> s@[j] != c);
                if w < i - 1 {
                    assert(s@[i - 1] != c);
                } else if w > i - 1 {
                }
            }
            return Some(i - 1);
        }
        i = i - 1;
    }
    None
}

/// The first position of `n` in `s`.
pub fn find_str_exec(s: &Vec<char>, n: &Vec<char>) -> (r: Option<usize>)
    ensures
        match r {
            Some(i) => find_str(s@, n@) == i && occurs_at(s@, n@, i as int),
            None => find_str(s@, n@) == -1 && !contains(s@, n@),
        },
{
    if n.len() > s.len() {
        assert(forall|i: int| !occurs_at(s@, n@, i));
        return None;
    }
    let last = s.len() - n.len();
    let mut i: usize = 0;
    loop
        invariant
            n.len() <= s.len(),
            last == s.len() - n.len(),
            i <= last,
            forall|k: int| 0 <= k < i ==> !occurs_at(s@, n@, k),
        ensures
            forall|k: int| 0 <= k <= last ==> !occurs_at(s@, n@, k),
        decreases last - i,
    {
        if occurs_at_exec(s, n, i) {
            proof {
                assert(contains(s@, n@));
                let w = find_str(s@, n@);
                assert(occurs_at(s@, n@, w) && forall|j: int| 0 <= j < w ==> !occurs_at(s@, n@, j));
                if w > i {
                    assert(!occurs_at(s@, n@, i as int));
                }
            }
            return Some(i);
        }
        if i == last {
            break;
        }
        i = i + 1;
    }
    assert(forall|k: int| !occurs_at(s@, n@, k));
    None
}

} // verus!

verus! {

/// Appends the characters of `s` to `out` (`String::push_str`).
pub fn append_str(out: &mut Vec<char>, s: &str)
    ensures
        final(out)@ == old(out)@ + s@,
{
    let c = chars_of(s);
    append_chars(out, &c);
}

/// Appends `s` to `out`.
pub fn append_chars(out: &mut Vec<char>, s: &Vec<char>)
    ensures
        final(out)@ == old(out)@ + s@,
{
    let mut i: usize = 0;
    let ghost o = out@;
    assert(o + s@.take(0) =~= o);
    while i < s.len()
        invariant
            i <= s.len(),
            out@ == o + s@.take(i as int),
        decreases s.len() - i,
    {
        out.push(s[i]);
        assert(o + s@.take(i as int).push(s@[i as int]) =~= o + s@.take(i + 1));
        i = i + 1;
    }
    assert(s@.take(s.len() as int) =~= s@);
}

/// At most the first `n` characters of `s` (`chars().take(n)`).
pub open spec fn take_at_most(s: Seq<char>, n: nat) -> Seq<char> {
    if s.len() <= n {
        s
    } else {
        s.take(n as int)
    }
}

/// At most the first `n` characters of `v`.
pub fn take_chars(v: &Vec<char>, n: usize) -> (r: Vec<char>)
    ensures
        r@ == take_at_most(v@, n as nat),
{
    if v.len() <= n {
        v.clone()
    } else {
        let r = slice_chars(v, 0, n);
        assert(r@ =~= v@.take(n as int));
        r
    }
}

/// `s` with every `c` removed (`str::replace(c, "")`).
pub open spec fn strip_char(s: Seq<char>, c: char) -> Seq<char>
    decreases s.len(),
{
    if s.len() == 0 {
        s
    } else if s.last() == c {
        strip_char(s.drop_last(), c)
    } else {
        strip_char(s.drop_last(), c).push(s.last())
    }
}

/// `v` with every `c` removed.
pub fn strip_char_exec(v: &Vec<char>, c: char) -> (r: Vec<char>)
    ensures
        r@ == strip_char(v@, c),
{
    let mut r: Vec<char> = Vec::new();
    let mut i: usize = 0;
    assert(v@.take(0) =~= Seq::<char>::empty());
    while i < v.len()
        invariant
            i <= v.len(),
            r@ == strip_char(v@.take(i as int), c),
        decreases v.len() - i,
    {
        assert(v@.take(i + 1).drop_last() =~= v@.take(i as int));
        if v[i] != c {
            r.push(v[i]);
        }
        i = i + 1;
    }
    assert(v@.take(v.len() as int) =~= v@);
    r
}

} // verus!

verus! {

/// `s` without leading `c`.
pub open spec fn ltrim_char(s: Seq<char>, c: char) -> Seq<char>
    decreases s.len(),
{
    if s.len() > 0 && s[0] == c {
        ltrim_char(s.drop_first(), c)
    } else {
        s
    }
}

/// `s` without trailing `c`.
pub open spec fn rtrim_char(s: Seq<char>, c: char) -> Seq<char>
    decreases s.len(),
{
    if s.len() > 0 && s.last() == c {
        rtrim_char(s.drop_last(), c)
    } else {
        s
    }
}

/// `s` without `c` at either end (`str::trim_matches(c)`).
pub open spec fn trim_matches(s: Seq<char>, c: char) -> Seq<char> {
    rtrim_char(ltrim_char(s, c), c)
}

/// `v` without `c` at either end.
pub fn trim_matches_exec(v: &Vec<char>, c: char) -> (r: Vec<char>)
    ensures
        r@ == trim_matches(v@, c),
{
    let mut a: usize = 0;
    assert(v@.subrange(0, v@.len() as int) =~= v@);
    while a < v.len() && v[a] == c
        invariant
            a <= v@.len(),
            ltrim_char(v@, c) == ltrim_char(v@.subrange(a as int, v@.len() as int), c),
        decreases v.len() - a,
    {
        assert(v@.subrange(a as int, v@.len() as int).drop_first() =~= v@.subrange(a + 1, v@.len() as int));
        a = a + 1;
    }
    let ghost l = v@.subrange(a as int, v@.len() as int);
    assert(ltrim_char(l, c) == l);
    let mut b: usize = v.len();
    assert(l.subrange(0, (b - a) as int) =~= l);
    while b > a && v[b - 1] == c
        invariant
            a <= b <= v@.len(),
            l == v@.subrange(a as int, v@.len() as int),
            rtrim_char(l, c) == rtrim_char(l.subrange(0, (b - a) as int), c),
        decreases b,
    {
        assert(l.subrange(0, (b - a) as int).drop_last() =~= l.subrange(0, (b - a) - 1));
        b = b - 1;
    }
    assert(l.subrange(0, (b - a) as int) =~= v@.subrange(a as int, b as int));
    slice_chars(v, a, b)
}

/// `s` up to its first `c` (all of `s` when there is none): `split(c).next()`.
pub open spec fn before_first(s: Seq<char>, c: char) -> Seq<char> {
    if has_char(s, c) {
        s.take(find_char(s, c))
    } else {
        s
    }
}

/// `v` up to its first `c`.
pub fn before_first_exec(v: &Vec<char>, c: char) -> (r: Vec<char>)
    ensures
        r@ == before_first(v@, c),
{
    match find_char_exec(v, c) {
        Some(i) => {
            let r = slice_chars(v, 0, i);
            assert(r@ =~= v@.take(i as int));
            r
        },
        None => v.clone(),
    }
}

} // verus!

verus! {

/// `a` sorts before `b` (byte order of their UTF-8 encodings, which is code-point order).
pub open spec fn str_lt(a: Seq<char>, b: Seq<char>) -> bool
    decreases a.len(),
{
    if a.len() == 0 {
        b.len() > 0
    } else if b.len() == 0 {
        false
    } else if a[0] != b[0] {
        a[0] < b[0]
    } else {
        str_lt(a.drop_first(), b.drop_first())
    }
}

/// Whether `a` sorts before `b`.
pub fn str_lt_exec(a: &Vec<char>, b: &Vec<char>) -> (r: bool)
    ensures
        r == str_lt(a@, b@),
{
    let mut i: usize = 0;
    assert(a@.skip(0) =~= a@);
    assert(b@.skip(0) =~= b@);
    while i < a.len() && i < b.len() && a[i] == b[i]
        invariant
            i <= a@.len(),
            i <= b@.len(),
            str_lt(a@, b@) == str_lt(a@.skip(i as int), b@.skip(i as int)),
        decreases a.len() - i,
    {
        assert(a@.skip(i as int).drop_first() =~= a@.skip(i + 1));
        assert(b@.skip(i as int).drop_first() =~= b@.skip(i + 1));
        i = i + 1;
    }
    if i == a.len() {
        i < b.len()
    } else if i == b.len() {
        false
    } else {
        a[i] < b[i]
    }
}

} // verus!

verus! {

/// `v` without its trailing whitespace.
pub fn trim_end_exec(v: &Vec<char>) -> (r: Vec<char>)
    ensures
        r@ == trim_end(v@),
{
    let mut j: usize = v.len();
    assert(v@.subrange(0, j as int) =~= v@);
    while j > 0 && is_ws_char(v[j - 1])
        invariant
            j <= v.len(),
            trim_end(v@) == trim_end(v@.subrange(0, j as int)),
        decreases j,
    {
        assert(v@.subrange(0, j as int).drop_last() =~= v@.subrange(0, j - 1));
        j = j - 1;
    }
    slice_chars(v, 0, j)
}

} // verus!
