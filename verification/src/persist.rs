//! The control-plane export: what of the operator's files may leave the host.
use vstd::prelude::*;

use crate::json::{clone_json, fview, lemma_array_view, lemma_object_fview, lemma_object_view, Json, JsonV};
use crate::text::{chars_of, contains, contains_chars, ends_with_chars, has_suffix, lower, lower_chars};

verus! {

/// A key that may hold a secret (compared in lower case): a password, secret, token, API key,
/// any `_key`, or a credential.
pub open spec fn secret_key(k: Seq<char>) -> bool {
    let l = lower(k);
    ||| contains(l, "password"@)
    ||| contains(l, "secret"@)
    ||| contains(l, "token"@)
    ||| contains(l, "api_key"@)
    ||| contains(l, "apikey"@)
    ||| has_suffix(l, "_key"@)
    ||| contains(l, "credential"@)
}

/// A value with the value of every secret-looking key replaced by `[redacted]`, at any depth.
pub open spec fn redact_spec(v: JsonV) -> JsonV
    decreases v,
{
    match v {
        JsonV::Object(f) => JsonV::Object(
            Seq::new(
                f.len(),
                |i: int|
                    if 0 <= i < f.len() {
                        proof {
                            assert(decreases_to!(v => f[i].1));
                        }
                        if secret_key(f[i].0) {
                            (f[i].0, JsonV::Str("[redacted]"@))
                        } else {
                            (f[i].0, redact_spec(f[i].1))
                        }
                    } else {
                        (Seq::empty(), JsonV::Null)
                    },
            ),
        ),
        JsonV::Array(a) => JsonV::Array(
            Seq::new(
                a.len(),
                |i: int|
                    if 0 <= i < a.len() {
                        proof {
                            assert(decreases_to!(v => a[i]));
                        }
                        redact_spec(a[i])
                    } else {
                        JsonV::Null
                    },
            ),
        ),
        _ => v,
    }
}

/// Whether a key may hold a secret.
pub fn is_secret_key(k: &str) -> (r: bool)
    ensures
        r == secret_key(k@),
{
    let l = lower_chars(&chars_of(k));
    contains_chars(&l, &chars_of("password")) || contains_chars(&l, &chars_of("secret"))
        || contains_chars(&l, &chars_of("token")) || contains_chars(&l, &chars_of("api_key"))
        || contains_chars(&l, &chars_of("apikey")) || ends_with_chars(&l, &chars_of("_key"))
        || contains_chars(&l, &chars_of("credential"))
}

/// Replaces, at any depth, the value of every secret-looking key by `[redacted]`; keys stay.
pub fn redact_value(value: &Json) -> (r: Json)
    ensures
        r@ == redact_spec(value@),
    decreases value,
{
    match value {
        Json::Object(fields) => {
            proof {
                lemma_object_view(*value);
            }
            let ghost f = value@->Object_0;
            let mut out: Vec<(String, Json)> = Vec::new();
            let mut i: usize = 0;
            while i < fields.len()
                invariant
                    i <= fields@.len() == f.len(),
                    *value == Json::Object(*fields),
                    f == value@->Object_0,
                    forall|k: int| 0 <= k < f.len() ==> #[trigger] f[k] == (fields@[k].0@, fields@[k].1@),
                    out@.len() == i,
                    forall|k: int| 0 <= k < i ==> #[trigger] fview(out@)[k] == redact_spec(value@)->Object_0[k],
                decreases fields.len() - i,
            {
                proof {
                    assert(decreases_to!(*value => (*value)->Object_0));
                    assert(decreases_to!(*fields => fields@[i as int]));
                    assert(decreases_to!(fields@[i as int] => fields@[i as int].1));
                }
                let v = if is_secret_key(fields[i].0.as_str()) {
                    Json::Str(String::from_str("[redacted]"))
                } else {
                    redact_value(&fields[i].1)
                };
                let ghost before = out@;
                let key = fields[i].0.clone();
                out.push((key, v));
                proof {
                    let rs = redact_spec(value@)->Object_0;
                    assert(rs[i as int] == if secret_key(f[i as int].0) {
                        (f[i as int].0, JsonV::Str("[redacted]"@))
                    } else {
                        (f[i as int].0, redact_spec(f[i as int].1))
                    });
                    assert(fview(out@)[i as int] == (fields@[i as int].0@, v@));
                    assert forall|k: int| 0 <= k < i implies #[trigger] fview(out@)[k] == fview(before)[k] by {
                        assert(out@[k] == before[k]);
                    }
                }
                i = i + 1;
            }
            let r = Json::Object(out);
            proof {
                lemma_object_fview(r);
                assert(fview(out@) =~= redact_spec(value@)->Object_0);
            }
            r
        },
        Json::Array(items) => {
            proof {
                lemma_array_view(*value);
            }
            let ghost a = value@->Array_0;
            let mut out: Vec<Json> = Vec::new();
            let mut i: usize = 0;
            while i < items.len()
                invariant
                    i <= items@.len() == a.len(),
                    *value == Json::Array(*items),
                    a == value@->Array_0,
                    forall|k: int| 0 <= k < a.len() ==> #[trigger] a[k] == items@[k]@,
                    out@.len() == i,
                    forall|k: int| 0 <= k < i ==> #[trigger] out@[k]@ == redact_spec(a[k]),
                decreases items.len() - i,
            {
                proof {
                    assert(decreases_to!(*value => (*value)->Array_0));
                    assert(decreases_to!(*items => items@[i as int]));
                }
                out.push(redact_value(&items[i]));
                i = i + 1;
            }
            let r = Json::Array(out);
            proof {
                lemma_array_view(r);
                assert(r@->Array_0 =~= redact_spec(value@)->Array_0);
            }
            r
        },
        _ => clone_json(value),
    }
}

} // verus!
