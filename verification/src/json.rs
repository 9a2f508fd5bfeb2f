//! A JSON value held as plain data, with a mathematical view.
use vstd::prelude::*;

verus! {

/// A JSON document value.
#[derive(Debug)]
pub enum Json {
    Null,
    Bool(bool),
    Int(i64),
    UInt(u64),
    Real { text: String, whole: i64 },
    Str(String),
    Array(Vec<Json>),
    Object(Vec<(String, Json)>),
}

/// The mathematical form of a [`Json`] value.
pub enum JsonV {
    Null,
    Bool(bool),
    Int(int),
    UInt(int),
    Real { text: Seq<char>, whole: int },
    Str(Seq<char>),
    Array(Seq<JsonV>),
    Object(Seq<(Seq<char>, JsonV)>),
}

pub open spec fn jview(j: Json) -> JsonV
    decreases j,
{
    match j {
        Json::Null => JsonV::Null,
        Json::Bool(b) => JsonV::Bool(b),
        Json::Int(i) => JsonV::Int(i as int),
        Json::UInt(u) => JsonV::UInt(u as int),
        Json::Real { text, whole } => JsonV::Real { text: text@, whole: whole as int },
        Json::Str(s) => JsonV::Str(s@),
        Json::Array(v) => JsonV::Array(
            Seq::new(
                v@.len(),
                |i: int|
                    if 0 <= i < v@.len() {
                        proof {
                            assert(decreases_to!(v => v@[i]));
                        }
                        jview(v@[i])
                    } else {
                        JsonV::Null
                    },
            ),
        ),
        Json::Object(v) => JsonV::Object(
            Seq::new(
                v@.len(),
                |i: int|
                    if 0 <= i < v@.len() {
                        proof {
                            assert(decreases_to!(v => v@[i].1));
                        }
                        (v@[i].0@, jview(v@[i].1))
                    } else {
                        (Seq::empty(), JsonV::Null)
                    },
            ),
        ),
    }
}

impl View for Json {
    type V = JsonV;

    open spec fn view(&self) -> JsonV {
        jview(*self)
    }
}

pub fn is_object(j: &Json) -> (b: bool)
    ensures
        b == (j@ is Object),
{
    match j {
        Json::Object(_) => true,
        _ => false,
    }
}

} // verus!

verus! {

/// The value stored under `k` in an object's fields (the first entry with that key).
pub open spec fn vget(fields: Seq<(Seq<char>, JsonV)>, k: Seq<char>) -> Option<JsonV>
    decreases fields.len(),
{
    if fields.len() == 0 {
        None
    } else if fields[0].0 == k {
        Some(fields[0].1)
    } else {
        vget(fields.drop_first(), k)
    }
}

/// `value.get(k)`: `None` unless `v` is an object holding `k`.
pub open spec fn jget(v: JsonV, k: Seq<char>) -> Option<JsonV> {
    match v {
        JsonV::Object(f) => vget(f, k),
        _ => None,
    }
}

/// `value.as_str()`.
pub open spec fn jstr(v: Option<JsonV>) -> Option<Seq<char>> {
    match v {
        Some(JsonV::Str(s)) => Some(s),
        _ => None,
    }
}

/// `value.as_bool()`.
pub open spec fn jbool(v: Option<JsonV>) -> Option<bool> {
    match v {
        Some(JsonV::Bool(b)) => Some(b),
        _ => None,
    }
}

/// `value.as_i64()`.
pub open spec fn ji64(v: Option<JsonV>) -> Option<int> {
    match v {
        Some(JsonV::Int(i)) => Some(i),
        _ => None,
    }
}

/// `value.as_array()`.
pub open spec fn jarr(v: Option<JsonV>) -> Option<Seq<JsonV>> {
    match v {
        Some(JsonV::Array(a)) => Some(a),
        _ => None,
    }
}

/// Field `k` of object `v` read as a string, `""` where absent or not a string.
pub open spec fn str_or_empty(v: JsonV, k: Seq<char>) -> Seq<char> {
    match jstr(jget(v, k)) {
        Some(s) => s,
        None => Seq::empty(),
    }
}

pub proof fn lemma_object_view(j: Json)
    requires
        j is Object,
    ensures
        j@ is Object,
        j@->Object_0.len() == j->Object_0@.len(),
        forall|i: int|
            0 <= i < j->Object_0@.len() ==> #[trigger] j@->Object_0[i] == (
            j->Object_0@[i].0@,
            j->Object_0@[i].1@,
        ),
{
}

pub proof fn lemma_array_view(j: Json)
    requires
        j is Array,
    ensures
        j@ is Array,
        j@->Array_0.len() == j->Array_0@.len(),
        forall|i: int| 0 <= i < j->Array_0@.len() ==> #[trigger] j@->Array_0[i] == j->Array_0@[i]@,
{
}

/// `value.get(key)`.
pub fn get<'a>(j: &'a Json, key: &str) -> (r: Option<&'a Json>)
    ensures
        match r {
            Some(x) => jget(j@, key@) == Some(x@),
            None => jget(j@, key@) is None,
        },
{
    match j {
        Json::Object(fields) => {
            proof {
                lemma_object_view(*j);
            }
            let k = crate::text::chars_of(key);
            let ghost f = j@->Object_0;
            let mut i: usize = 0;
            assert(f.subrange(0, f.len() as int) =~= f);
            while i < fields.len()
                invariant
                    i <= fields@.len() == f.len(),
                    k@ == key@,
                    j@ == JsonV::Object(f),
                    forall|m: int| 0 <= m < f.len() ==> #[trigger] f[m] == (fields@[m].0@, fields@[m].1@),
                    vget(f, key@) == vget(f.subrange(i as int, f.len() as int), key@),
                decreases fields.len() - i,
            {
                let kc = crate::text::chars_of(fields[i].0.as_str());
                let ghost rest = f.subrange(i as int, f.len() as int);
                assert(rest[0] == f[i as int]);
                assert(rest.drop_first() =~= f.subrange(i + 1, f.len() as int));
                if crate::text::eq_chars(&kc, &k) {
                    return Some(&fields[i].1);
                }
                i = i + 1;
            }
            None
        },
        _ => None,
    }
}

/// `value.get(key).and_then(|v| v.as_str())`.
pub fn get_str<'a>(j: &'a Json, key: &str) -> (r: Option<&'a String>)
    ensures
        match r {
            Some(s) => jstr(jget(j@, key@)) == Some(s@),
            None => jstr(jget(j@, key@)) is None,
        },
{
    match get(j, key) {
        Some(Json::Str(s)) => Some(s),
        _ => None,
    }
}

/// `value.get(key).and_then(|v| v.as_bool())`.
pub fn get_bool(j: &Json, key: &str) -> (r: Option<bool>)
    ensures
        r == jbool(jget(j@, key@)),
{
    match get(j, key) {
        Some(Json::Bool(b)) => Some(*b),
        _ => None,
    }
}

/// `value.get(key).and_then(|v| v.as_i64())`.
pub fn get_i64(j: &Json, key: &str) -> (r: Option<i64>)
    ensures
        match r {
            Some(i) => ji64(jget(j@, key@)) == Some(i as int),
            None => ji64(jget(j@, key@)) is None,
        },
{
    match get(j, key) {
        Some(Json::Int(i)) => Some(*i),
        _ => None,
    }
}

/// Field `key` of `j` as text, `""` where absent or not a string.
pub fn get_str_or_empty(j: &Json, key: &str) -> (r: String)
    ensures
        r@ == str_or_empty(j@, key@),
{
    match get_str(j, key) {
        Some(s) => s.clone(),
        None => String::new(),
    }
}

/// A deep copy of a JSON value.
pub fn clone_json(j: &Json) -> (r: Json)
    ensures
        r@ == j@,
    decreases j,
{
    match j {
        Json::Null => Json::Null,
        Json::Bool(b) => Json::Bool(*b),
        Json::Int(i) => Json::Int(*i),
        Json::UInt(u) => Json::UInt(*u),
        Json::Real { text, whole } => Json::Real { text: text.clone(), whole: *whole },
        Json::Str(s) => Json::Str(s.clone()),
        Json::Array(items) => {
            let mut out: Vec<Json> = Vec::new();
            let mut i: usize = 0;
            while i < items.len()
                invariant
                    i <= items.len(),
                    out@.len() == i,
                    *j == Json::Array(*items),
                    forall|m: int| 0 <= m < i ==> #[trigger] out@[m]@ == items@[m]@,
                decreases items.len() - i,
            {
                proof {
                    assert(decreases_to!(*j => (*j)->Array_0));
                    assert(decreases_to!(*items => items@[i as int]));
                }
                out.push(clone_json(&items[i]));
                i = i + 1;
            }
            let r = Json::Array(out);
            proof {
                lemma_array_view(r);
                lemma_array_view(*j);
                assert(r@->Array_0 =~= j@->Array_0);
            }
            r
        },
        Json::Object(fields) => {
            let mut out: Vec<(String, Json)> = Vec::new();
            let mut i: usize = 0;
            while i < fields.len()
                invariant
                    i <= fields.len(),
                    out@.len() == i,
                    *j == Json::Object(*fields),
                    forall|m: int|
                        0 <= m < i ==> #[trigger] out@[m].0@ == fields@[m].0@ && out@[m].1@
                            == fields@[m].1@,
                decreases fields.len() - i,
            {
                proof {
                    assert(decreases_to!(*j => (*j)->Object_0));
                    assert(decreases_to!(*fields => fields@[i as int]));
                    assert(decreases_to!(fields@[i as int] => fields@[i as int].1));
                }
                let v = clone_json(&fields[i].1);
                let k = crate::text::string_of(&crate::text::chars_of(fields[i].0.as_str()));
                let ghost before = out@;
                out.push((k, v));
                assert(out@[i as int].0@ == fields@[i as int].0@ && out@[i as int].1@ == fields@[i as int].1@);
                assert forall|m: int| 0 <= m < i + 1 implies #[trigger] out@[m].0@ == fields@[m].0@ && out@[m].1@
                    == fields@[m].1@ by {
                    if m < i {
                        assert(out@[m] == before[m]);
                        assert(before[m].0@ == fields@[m].0@ && before[m].1@ == fields@[m].1@);
                    }
                }
                i = i + 1;
            }
            let r = Json::Object(out);
            proof {
                lemma_object_view(r);
                lemma_object_view(*j);
                assert(r@->Object_0 =~= j@->Object_0);
            }
            r
        },
    }
}

} // verus!

verus! {

/// The mathematical fields of an object's entries.
pub open spec fn fview(f: Seq<(String, Json)>) -> Seq<(Seq<char>, JsonV)> {
    Seq::new(f.len(), |i: int| (f[i].0@, f[i].1@))
}

/// An object's fields as a map from key to value (the first entry of each key).
pub open spec fn omap(f: Seq<(Seq<char>, JsonV)>) -> Map<Seq<char>, JsonV> {
    Map::new(|k: Seq<char>| vget(f, k) is Some, |k: Seq<char>| vget(f, k)->Some_0)
}

/// The key-value map of a JSON object's entries.
pub open spec fn entries_map(f: Seq<(String, Json)>) -> Map<Seq<char>, JsonV> {
    omap(fview(f))
}

pub proof fn lemma_object_fview(j: Json)
    requires
        j is Object,
    ensures
        j@ == JsonV::Object(fview(j->Object_0@)),
{
    lemma_object_view(j);
    assert(j@->Object_0 =~= fview(j->Object_0@));
}

proof fn lemma_vget_push(f: Seq<(Seq<char>, JsonV)>, k: Seq<char>, v: JsonV, k2: Seq<char>)
    requires
        vget(f, k) is None,
    ensures
        vget(f.push((k, v)), k2) == if k2 == k { Some(v) } else { vget(f, k2) },
    decreases f.len(),
{
    if f.len() == 0 {
        assert(f.push((k, v)).drop_first() =~= Seq::<(Seq<char>, JsonV)>::empty());
    } else {
        assert(f.push((k, v)).drop_first() =~= f.drop_first().push((k, v)));
        if f[0].0 != k2 {
            lemma_vget_push(f.drop_first(), k, v, k2);
        }
    }
}

proof fn lemma_vget_update(f: Seq<(Seq<char>, JsonV)>, i: int, k: Seq<char>, v: JsonV, k2: Seq<char>)
    requires
        0 <= i < f.len(),
        f[i].0 == k,
        forall|j: int| 0 <= j < i ==> f[j].0 != k,
    ensures
        vget(f.update(i, (k, v)), k2) == if k2 == k { Some(v) } else { vget(f, k2) },
    decreases i,
{
    let g = f.update(i, (k, v));
    if i == 0 {
        assert(g.drop_first() =~= f.drop_first());
    } else {
        assert(g[0] == f[0]);
        assert(g.drop_first() =~= f.drop_first().update(i - 1, (k, v)));
        if f[0].0 != k2 {
            lemma_vget_update(f.drop_first(), i - 1, k, v, k2);
        }
    }
}

/// Index of the first entry with key `k`.
pub open spec fn key_index(f: Seq<(Seq<char>, JsonV)>, k: Seq<char>) -> Option<int> {
    if exists|i: int| 0 <= i < f.len() && #[trigger] f[i].0 == k {
        Some(choose|i: int| 0 <= i < f.len() && #[trigger] f[i].0 == k && forall|j: int| 0 <= j < i ==> #[trigger] f[j].0 != k)
    } else {
        None
    }
}

/// The entries with `k` set to `v`: the first entry with key `k` replaced, or a new entry
/// at the end (`Map::insert`).
pub open spec fn set_entry(f: Seq<(Seq<char>, JsonV)>, k: Seq<char>, v: JsonV) -> Seq<(Seq<char>, JsonV)> {
    match key_index(f, k) {
        Some(i) => f.update(i, (k, v)),
        None => f.push((k, v)),
    }
}

/// An object with field `k` set to `v`; any other value unchanged.
pub open spec fn set_field(j: JsonV, k: Seq<char>, v: JsonV) -> JsonV {
    match j {
        JsonV::Object(f) => JsonV::Object(set_entry(f, k, v)),
        _ => j,
    }
}

/// Sets `key` to `value` in an object's entries (`Map::insert`).
pub fn obj_set(fields: &mut Vec<(String, Json)>, key: &str, value: Json)
    ensures
        fview(final(fields)@) == set_entry(fview(old(fields)@), key@, value@),
        entries_map(final(fields)@) == entries_map(old(fields)@).insert(key@, value@),
{
    let ghost f0 = fview(fields@);
    let k = crate::text::chars_of(key);
    let mut i: usize = 0;
    while i < fields.len()
        invariant
            i <= fields@.len(),
            k@ == key@,
            f0 == fview(fields@),
            fields@ == old(fields)@,
            forall|j: int| 0 <= j < i ==> #[trigger] fields@[j].0@ != key@,
        decreases fields.len() - i,
    {
        let kc = crate::text::chars_of(fields[i].0.as_str());
        if crate::text::eq_chars(&kc, &k) {
            let ghost vv = value@;
            fields.set(i, (crate::text::string_of(&k), value));
            proof {
                assert(f0[i as int].0 == key@);
                let w = key_index(f0, key@)->Some_0;
                assert(f0[w].0 == key@);
                if w < i {
                    assert(fields@[w].0@ != key@);
                } else if w > i {
                    assert(f0[i as int].0 != key@);
                }
                assert(fview(fields@) =~= f0.update(i as int, (key@, vv)));
                assert forall|k2: Seq<char>| #[trigger] vget(fview(fields@), k2) == if k2 == key@ { Some(vv) } else { vget(f0, k2) } by {
                    lemma_vget_update(f0, i as int, key@, vv, k2);
                }
                assert(entries_map(fields@) =~= entries_map(old(fields)@).insert(key@, vv));
            }
            return;
        }
        i = i + 1;
    }
    proof {
        assert forall|k2: Seq<char>| vget(f0, k2) is Some implies exists|j: int| 0 <= j < f0.len() && f0[j].0 == k2 by {
            lemma_vget_some(f0, k2);
        }
        if vget(f0, key@) is Some {
            let j = choose|j: int| 0 <= j < f0.len() && f0[j].0 == key@;
            assert(fields@[j].0@ != key@);
        }
    }
    let ghost vv = value@;
    fields.push((crate::text::string_of(&k), value));
    proof {
        if exists|m: int| 0 <= m < f0.len() && #[trigger] f0[m].0 == key@ {
            let m = choose|m: int| 0 <= m < f0.len() && #[trigger] f0[m].0 == key@;
            assert(old(fields)@[m].0@ != key@);
        }
        assert(fview(fields@) =~= f0.push((key@, vv)));
        assert forall|k2: Seq<char>| #[trigger] vget(fview(fields@), k2) == if k2 == key@ { Some(vv) } else { vget(f0, k2) } by {
            lemma_vget_push(f0, key@, vv, k2);
        }
        assert(entries_map(fields@) =~= entries_map(old(fields)@).insert(key@, vv));
    }
}

/// A key found by `vget` is the key of some entry.
pub proof fn lemma_vget_some(f: Seq<(Seq<char>, JsonV)>, k: Seq<char>)
    ensures
        vget(f, k) is Some ==> exists|j: int| 0 <= j < f.len() && f[j].0 == k,
        vget(f, k) matches Some(v) ==> exists|j: int| 0 <= j < f.len() && f[j].0 == k && f[j].1 == v,
    decreases f.len(),
{
    if f.len() > 0 && f[0].0 != k {
        lemma_vget_some(f.drop_first(), k);
        if vget(f.drop_first(), k) is Some {
            let j = choose|j: int| 0 <= j < f.drop_first().len() && f.drop_first()[j].0 == k && f.drop_first()[j].1 == vget(f.drop_first(), k)->Some_0;
            assert(f[j + 1] == f.drop_first()[j]);
        }
    }
}

} // verus!

verus! {

/// Field `k` of `v` as text, `dflt` where absent or not a string.
pub open spec fn str_or(v: JsonV, k: Seq<char>, dflt: Seq<char>) -> Seq<char> {
    match jstr(jget(v, k)) {
        Some(s) => s,
        None => dflt,
    }
}

/// `value.get(key).and_then(|v| v.as_str()).unwrap_or(dflt)`, as characters.
pub fn get_str_or(j: &Json, key: &str, dflt: &str) -> (r: Vec<char>)
    ensures
        r@ == str_or(j@, key@, dflt@),
{
    match get_str(j, key) {
        Some(s) => crate::text::chars_of(s.as_str()),
        None => crate::text::chars_of(dflt),
    }
}

} // verus!

verus! {

/// The views of a sequence of JSON values.
pub open spec fn jviews(s: Seq<Json>) -> Seq<JsonV> {
    Seq::new(s.len(), |i: int| s[i]@)
}

/// `value.get(key).and_then(|v| v.as_bool()).unwrap_or(dflt)`.
pub open spec fn bool_or(v: JsonV, k: Seq<char>, dflt: bool) -> bool {
    match jbool(jget(v, k)) {
        Some(b) => b,
        None => dflt,
    }
}

/// `value.get(key).and_then(|v| v.as_bool()).unwrap_or(dflt)`.
pub fn get_bool_or(j: &Json, key: &str, dflt: bool) -> (r: bool)
    ensures
        r == bool_or(j@, key@, dflt),
{
    match get_bool(j, key) {
        Some(b) => b,
        None => dflt,
    }
}

} // verus!

verus! {

/// Whether field `key` of `j` is the string `s`.
pub fn field_is(j: &Json, key: &str, s: &Vec<char>) -> (r: bool)
    ensures
        r == (jstr(jget(j@, key@)) == Some(s@)),
{
    match get_str(j, key) {
        Some(v) => {
            let c = crate::text::chars_of(v.as_str());
            crate::text::eq_chars(&c, s)
        },
        None => false,
    }
}

/// A deep copy of a sequence of JSON values.
pub fn clone_all(v: &Vec<Json>) -> (r: Vec<Json>)
    ensures
        jviews(r@) == jviews(v@),
{
    let mut r: Vec<Json> = Vec::new();
    let mut i: usize = 0;
    while i < v.len()
        invariant
            i <= v.len(),
            r@.len() == i,
            forall|m: int| 0 <= m < i ==> #[trigger] r@[m]@ == v@[m]@,
        decreases v.len() - i,
    {
        r.push(clone_json(&v[i]));
        i = i + 1;
    }
    assert(jviews(r@) =~= jviews(v@));
    r
}

} // verus!

verus! {

/// Reading an object after setting one of its fields.
pub proof fn lemma_set_entry_get(f: Seq<(Seq<char>, JsonV)>, k: Seq<char>, v: JsonV, k2: Seq<char>)
    ensures
        vget(set_entry(f, k, v), k2) == if k2 == k { Some(v) } else { vget(f, k2) },
{
    lemma_key_index(f, k, f.len() as int);
    if exists|i: int| 0 <= i < f.len() && #[trigger] f[i].0 == k {
        assert(key_index(f, k) is Some);
    }
    match key_index(f, k) {
        Some(i) => {
            lemma_vget_update(f, i, k, v, k2);
        },
        None => {
            lemma_vget_some(f, k);
            if vget(f, k) is Some {
                let j = choose|j: int| 0 <= j < f.len() && f[j].0 == k;
                assert(f[j].0 == k);
            }
            lemma_vget_push(f, k, v, k2);
        },
    }
}

} // verus!

verus! {

/// The value under a key whose first entry is at index `i`.
pub proof fn lemma_vget_first(f: Seq<(Seq<char>, JsonV)>, i: int, k: Seq<char>)
    requires
        0 <= i < f.len(),
        f[i].0 == k,
        forall|j: int| 0 <= j < i ==> f[j].0 != k,
    ensures
        vget(f, k) == Some(f[i].1),
    decreases i,
{
    if i > 0 {
        lemma_vget_first(f.drop_first(), i - 1, k);
    }
}

} // verus!

verus! {

/// Where some entry among the first `n` has key `k`, a first such entry exists; so
/// `key_index` finds the first entry with key `k` whenever there is one.
pub proof fn lemma_key_index(f: Seq<(Seq<char>, JsonV)>, k: Seq<char>, n: int)
    requires
        0 <= n <= f.len(),
    ensures
        (exists|i: int| 0 <= i < n && #[trigger] f[i].0 == k) ==> exists|i: int|
            0 <= i < n && #[trigger] f[i].0 == k && forall|j: int| 0 <= j < i ==> #[trigger] f[j].0 != k,
        n == f.len() ==> (key_index(f, k) matches Some(i) ==> 0 <= i < f.len() && f[i].0 == k && forall|j: int|
            0 <= j < i ==> #[trigger] f[j].0 != k),
    decreases n,
{
    if n > 0 {
        lemma_key_index(f, k, n - 1);
        if !(exists|i: int| 0 <= i < n - 1 && #[trigger] f[i].0 == k) && f[n - 1].0 == k {
            assert(forall|j: int| 0 <= j < n - 1 ==> #[trigger] f[j].0 != k);
        }
    }
}

} // verus!

verus! {

/// A deep copy of an object's entries.
pub fn clone_fields(f: &Vec<(String, Json)>) -> (r: Vec<(String, Json)>)
    ensures
        fview(r@) == fview(f@),
{
    let mut r: Vec<(String, Json)> = Vec::new();
    let mut i: usize = 0;
    while i < f.len()
        invariant
            i <= f.len(),
            r@.len() == i,
            forall|m: int| 0 <= m < i ==> #[trigger] r@[m].0@ == f@[m].0@ && r@[m].1@ == f@[m].1@,
        decreases f.len() - i,
    {
        let v = clone_json(&f[i].1);
        let k = crate::text::string_of(&crate::text::chars_of(f[i].0.as_str()));
        let ghost before = r@;
        r.push((k, v));
        assert(r@[i as int].0@ == f@[i as int].0@ && r@[i as int].1@ == f@[i as int].1@);
        assert forall|m: int| 0 <= m < i + 1 implies #[trigger] r@[m].0@ == f@[m].0@ && r@[m].1@ == f@[m].1@ by {
            if m < i {
                assert(r@[m] == before[m]);
                assert(before[m].0@ == f@[m].0@ && before[m].1@ == f@[m].1@);
            }
        }
        i = i + 1;
    }
    assert(fview(r@) =~= fview(f@));
    r
}

} // verus!

verus! {

/// Parts joined with commas.
pub open spec fn join_comma(parts: Seq<Seq<char>>) -> Seq<char>
    decreases parts.len(),
{
    if parts.len() == 0 {
        Seq::empty()
    } else if parts.len() == 1 {
        parts[0]
    } else {
        join_comma(parts.drop_last()) + seq![','] + parts.last()
    }
}

/// The compact JSON text of a value (the form `serde_json::Value::to_string` writes):
/// no blanks, strings escaped, an object's keys each once (with the value `get` reads) in
/// ascending order, as serde_json's sorted map holds them.
pub open spec fn jtext(v: JsonV) -> Seq<char>
    decreases v, 1int,
{
    match v {
        JsonV::Null => "null"@,
        JsonV::Bool(b) => if b { "true"@ } else { "false"@ },
        JsonV::Int(i) => crate::control::int_text(i),
        JsonV::UInt(u) => crate::control::int_text(u),
        JsonV::Real { text, whole } => text,
        JsonV::Str(s) => crate::routes::json_quoted(s),
        JsonV::Array(a) => seq!['['] + join_comma(array_parts(v)) + seq![']'],
        JsonV::Object(f) => seq!['{'] + join_comma(object_parts(v)) + seq!['}'],
    }
}

/// The texts of an array's items.
pub open spec fn array_parts(v: JsonV) -> Seq<Seq<char>>
    decreases v, 0int,
{
    match v {
        JsonV::Array(a) => Seq::new(
            a.len(),
            |i: int|
                if 0 <= i < a.len() {
                    proof {
                        assert(decreases_to!(v => a[i]));
                    }
                    jtext(a[i])
                } else {
                    Seq::empty()
                },
        ),
        _ => Seq::empty(),
    }
}

/// The `"key":value` texts of an object's entries.
pub open spec fn object_parts(v: JsonV) -> Seq<Seq<char>>
    decreases v, 0int,
{
    match v {
        JsonV::Object(f) => {
            let ks = object_keys(f);
            Seq::new(
                ks.len(),
                |i: int|
                    if 0 <= i < ks.len() {
                        match vget(f, ks[i]) {
                            Some(x) => {
                                proof {
                                    lemma_vget_some(f, ks[i]);
                                    let j = choose|j: int| 0 <= j < f.len() && f[j].1 == x;
                                    assert(decreases_to!(v => f[j].1));
                                }
                                crate::routes::json_quoted(ks[i]) + seq![':'] + jtext(x)
                            },
                            None => Seq::empty(),
                        }
                    } else {
                        Seq::empty()
                    },
            )
        },
        _ => Seq::empty(),
    }
}

/// The keys of an object, each once, in ascending (code-point) order: the order in which
/// serde_json's map writes them.
pub open spec fn object_keys(f: Seq<(Seq<char>, JsonV)>) -> Seq<Seq<char>> {
    crate::findings::sort_spec(crate::findings::distinct(f.map_values(|e: (Seq<char>, JsonV)| e.0)))
}


/// Escapes one character as serde_json does inside a string.
fn json_char_exec(out: &mut Vec<char>, c: char)
    ensures
        final(out)@ == old(out)@ + crate::routes::json_char(c),
{
    if c == '"' {
        out.push('\\');
        out.push('"');
    } else if c == '\\' {
        out.push('\\');
        out.push('\\');
    } else if c == '\u{8}' {
        out.push('\\');
        out.push('b');
    } else if c == '\t' {
        out.push('\\');
        out.push('t');
    } else if c == '\n' {
        out.push('\\');
        out.push('n');
    } else if c == '\u{c}' {
        out.push('\\');
        out.push('f');
    } else if c == '\r' {
        out.push('\\');
        out.push('r');
    } else if (c as u32) < 0x20 {
        let n = c as u32;
        out.push('\\');
        out.push('u');
        out.push('0');
        out.push('0');
        out.push(hex_char(n / 16));
        out.push(hex_char(n % 16));
    } else {
        out.push(c);
    }
    assert(final(out)@ =~= old(out)@ + crate::routes::json_char(c));
}

/// A lowercase hexadecimal digit.
fn hex_char(n: u32) -> (c: char)
    requires
        n < 16,
    ensures
        c == crate::routes::hex_digit(n as int),
{
    if n < 10 {
        char_from_code(n + 48)
    } else {
        char_from_code(n - 10 + 97)
    }
}

/// The character with an ASCII code.
fn char_from_code(n: u32) -> (c: char)
    requires
        n < 128,
    ensures
        c as int == n as int,
{
    let b: u8 = n as u8;
    let c = b as char;
    c
}

/// Appends a string as a JSON string literal.
pub(crate) fn append_quoted(out: &mut Vec<char>, s: &str)
    ensures
        final(out)@ == old(out)@ + crate::routes::json_quoted(s@),
{
    let cs = crate::text::chars_of(s);
    let ghost o = out@;
    out.push('"');
    let mut i: usize = 0;
    assert(cs@.take(0) =~= Seq::<char>::empty());
    while i < cs.len()
        invariant
            i <= cs.len(),
            out@ == o + seq!['"'] + crate::routes::json_body(cs@.take(i as int)),
        decreases cs.len() - i,
    {
        assert(cs@.take(i + 1).drop_last() =~= cs@.take(i as int));
        json_char_exec(out, cs[i]);
        i = i + 1;
    }
    assert(cs@.take(cs.len() as int) =~= cs@);
    out.push('"');
    assert(out@ =~= o + crate::routes::json_quoted(s@));
}

/// Writes the compact JSON text of a value.
pub fn write_json(out: &mut Vec<char>, j: &Json)
    ensures
        final(out)@ == old(out)@ + jtext(j@),
    decreases j,
{
    match j {
        Json::Null => crate::text::append_str(out, "null"),
        Json::Bool(b) => if *b {
            crate::text::append_str(out, "true")
        } else {
            crate::text::append_str(out, "false")
        },
        Json::Int(i) => {
            let t = crate::control::int_text_exec(*i);
            crate::text::append_chars(out, &t);
        },
        Json::UInt(u) => {
            let t = crate::control::decimal_exec(*u);
            crate::text::append_chars(out, &t);
        },
        Json::Real { text, whole } => crate::text::append_str(out, text.as_str()),
        Json::Str(s) => append_quoted(out, s.as_str()),
        Json::Array(items) => {
            proof {
                lemma_array_view(*j);
            }
            let ghost o = out@;
            let ghost parts = Seq::new(items@.len(), |k: int| jtext(items@[k]@));
            out.push('[');
            let mut i: usize = 0;
            while i < items.len()
                invariant
                    i <= items.len(),
                    *j == Json::Array(*items),
                    parts == Seq::new(items@.len(), |k: int| jtext(items@[k]@)),
                    out@ == o + seq!['['] + join_comma(parts.take(i as int)),
                decreases items.len() - i,
            {
                proof {
                    assert(decreases_to!(*j => (*j)->Array_0));
                    assert(decreases_to!(*items => items@[i as int]));
                }
                assert(parts.take(i + 1).drop_last() =~= parts.take(i as int));
                if i > 0 {
                    out.push(',');
                }
                write_json(out, &items[i]);
                proof {
                    if i == 0 {
                        assert(parts.take(1) =~= seq![parts[0]]);
                    }
                }
                i = i + 1;
            }
            out.push(']');
            proof {
                assert(parts.take(items@.len() as int) =~= parts);
                let a = j@->Array_0;
                assert(array_parts(j@) =~= parts);
                assert(jtext(j@) == seq!['['] + join_comma(array_parts(j@)) + seq![']']);
            }
            assert(out@ =~= o + jtext(j@));
        },
        Json::Object(fields) => {
            proof {
                lemma_object_view(*j);
            }
            let ghost o = out@;
            let ghost f = fview(fields@);
            assert(f =~= j@->Object_0);
            let mut ks0: Vec<Vec<char>> = Vec::new();
            let mut m: usize = 0;
            while m < fields.len()
                invariant
                    m <= fields@.len(),
                    ks0@.len() == m,
                    forall|q: int| 0 <= q < m ==> #[trigger] ks0@[q]@ == fields@[q].0@,
                decreases fields.len() - m,
            {
                ks0.push(crate::text::chars_of(fields[m].0.as_str()));
                m = m + 1;
            }
            assert(crate::correlate::vviews(ks0@) =~= f.map_values(|e: (Seq<char>, JsonV)| e.0));
            let ks = crate::findings::sort_texts(crate::control::distinct_texts(&ks0));
            let ghost kv = crate::correlate::vviews(ks@);
            assert(kv == object_keys(f));
            let ghost parts = object_parts(j@);
            assert(parts.len() == kv.len());
            out.push('{');
            let mut i: usize = 0;
            while i < ks.len()
                invariant
                    i <= ks@.len() == kv.len(),
                    *j == Json::Object(*fields),
                    f == fview(fields@),
                    f == j@->Object_0,
                    kv == crate::correlate::vviews(ks@),
                    kv == object_keys(f),
                    parts == object_parts(j@),
                    parts.len() == kv.len(),
                    out@ == o + seq!['{'] + join_comma(parts.take(i as int)),
                decreases ks.len() - i,
            {
                assert(parts.take(i + 1).drop_last() =~= parts.take(i as int));
                if i > 0 {
                    out.push(',');
                }
                let ghost before = out@;
                let key = &ks[i];
                assert(key@ == kv[i as int]);
                let mut q: usize = 0;
                while q < fields.len() && !crate::text::eq_chars(&crate::text::chars_of(fields[q].0.as_str()), key)
                    invariant
                        q <= fields@.len(),
                        f == fview(fields@),
                        forall|z: int| 0 <= z < q ==> #[trigger] f[z].0 != key@,
                    decreases fields.len() - q,
                {
                    assert(f[q as int].0 == fields@[q as int].0@);
                    q = q + 1;
                }
                if q < fields.len() {
                    assert(f[q as int].0 == fields@[q as int].0@);
                    assert(f[q as int].0 == key@);
                    proof {
                        lemma_vget_first(f, q as int, key@);
                        assert(decreases_to!(*j => (*j)->Object_0));
                        assert(decreases_to!(*fields => fields@[q as int]));
                        assert(decreases_to!(fields@[q as int] => fields@[q as int].1));
                    }
                    append_quoted(out, string_of_chars(key).as_str());
                    out.push(':');
                    write_json(out, &fields[q].1);
                    assert(f[q as int].1 == fields@[q as int].1@);
                    assert(parts[i as int] == crate::routes::json_quoted(kv[i as int]) + seq![':'] + jtext(fields@[q as int].1@));
                    assert(out@ =~= before + parts[i as int]);
                } else {
                    proof {
                        lemma_vget_some(f, key@);
                    }
                    assert(vget(f, kv[i as int]) is None);
                    assert(parts[i as int] == Seq::<char>::empty());
                    assert(out@ =~= before + parts[i as int]);
                }
                proof {
                    if i == 0 {
                        assert(parts.take(1) =~= seq![parts[0]]);
                        assert(out@ =~= o + seq!['{'] + join_comma(parts.take(1)));
                    } else {
                        assert(out@ =~= o + seq!['{'] + join_comma(parts.take(i + 1)));
                    }
                }
                i = i + 1;
            }
            out.push('}');
            proof {
                assert(parts.take(kv.len() as int) =~= parts);
                assert(jtext(j@) == seq!['{'] + join_comma(object_parts(j@)) + seq!['}']);
            }
            assert(out@ =~= o + jtext(j@));
        },
    }
}

/// A `String` of the given characters.
fn string_of_chars(v: &Vec<char>) -> (r: String)
    ensures
        r@ == v@,
{
    crate::text::string_of(v)
}

/// The compact JSON text of a value.
pub fn json_text(j: &Json) -> (r: String)
    ensures
        r@ == jtext(j@),
{
    let mut out: Vec<char> = Vec::new();
    write_json(&mut out, j);
    assert(out@ =~= jtext(j@));
    crate::text::string_of(&out)
}

} // verus!

verus! {

/// A value with field `k` set to `v` (objects only; anything else is returned unchanged).
pub fn json_set(j: Json, k: &str, v: Json) -> (r: Json)
    ensures
        r@ == set_field(j@, k@, v@),
{
    match j {
        Json::Object(mut fields) => {
            proof {
                lemma_object_fview(Json::Object(fields));
            }
            obj_set(&mut fields, k, v);
            let r = Json::Object(fields);
            proof {
                lemma_object_fview(r);
            }
            r
        },
        other => other,
    }
}

/// Whether field `key` of `j` is a non-empty array.
pub fn field_nonempty_array(j: &Json, key: &str) -> (r: bool)
    ensures
        r == (match jget(j@, key@) {
            Some(JsonV::Array(x)) => x.len() > 0,
            _ => false,
        }),
{
    match get(j, key) {
        Some(v) => match v {
            Json::Array(x) => {
                proof {
                    lemma_array_view(*v);
                }
                x.len() > 0
            },
            _ => false,
        },
        None => false,
    }
}

} // verus!

verus! {

/// The text under `k1`, or under `k2` when there is no `k1` field (empty when that is not text).
pub open spec fn first_str(p: JsonV, k1: Seq<char>, k2: Seq<char>) -> Seq<char> {
    let v = match jget(p, k1) {
        Some(x) => Some(x),
        None => jget(p, k2),
    };
    match jstr(v) {
        Some(s) => s,
        None => Seq::empty(),
    }
}

/// The text under `k1`, falling back to the field `k2`.
pub fn first_str_of(p: &Json, k1: &str, k2: &str) -> (r: String)
    ensures
        r@ == first_str(p@, k1@, k2@),
{
    let v = match get(p, k1) {
        Some(x) => Some(x),
        None => get(p, k2),
    };
    match v {
        Some(Json::Str(s)) => s.clone(),
        _ => String::new(),
    }
}

} // verus!
