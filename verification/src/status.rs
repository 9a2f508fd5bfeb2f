//! Shared HTTP status semantics and the application's name.
use vstd::prelude::*;

use crate::json::{Json, JsonV};
use crate::number::{parse_int, parse_int_spec};
use crate::text::{append_str, chars_of, string_of};

verus! {

/// The integer a status value stands for: an integer, an integer above `i64::MAX` taken
/// modulo 2^64 (`as i64`), or integer text.
pub open spec fn status_value(v: JsonV) -> Option<int> {
    match v {
        JsonV::Int(i) => Some(i),
        JsonV::UInt(u) => Some(if u > i64::MAX { u - 0x1_0000_0000_0000_0000 } else { u }),
        JsonV::Str(s) => match parse_int_spec(s, true, i64::MIN as int, i64::MAX as int) {
            Ok(x) => Some(x),
            Err(_) => None,
        },
        _ => None,
    }
}

/// What `http_status_ok` answers: the status is in `200..400`.
pub open spec fn status_ok_spec(v: JsonV) -> bool {
    match status_value(v) {
        Some(c) => 200 <= c < 400,
        None => false,
    }
}

/// Whether an HTTP status (a number or numeric text) is a success or a redirect.
pub fn http_status_ok(code: &Json) -> (r: bool)
    ensures
        r == status_ok_spec(code@),
{
    let c: Option<i64> = match code {
        Json::Int(i) => Some(*i),
        Json::UInt(u) => Some(if *u > i64::MAX as u64 { (*u - 9223372036854775808u64) as i64 - 9223372036854775807 - 1 } else { *u as i64 }),
        Json::Str(s) => {
            let cs = chars_of(s.as_str());
            match parse_int(&cs, true, i64::MIN, i64::MAX) {
                Ok(x) => Some(x),
                Err(_) => None,
            }
        },
        _ => None,
    };
    match c {
        Some(c) => 200 <= c && c < 400,
        None => false,
    }
}

/// The application's name: product and version.
pub open spec fn app_name_spec(product: Seq<char>, version: Seq<char>) -> Seq<char> {
    product + "/"@ + version
}

/// The application's name, `product/version`.
pub fn app_name(product: &str, version: &str) -> (r: String)
    ensures
        r@ == app_name_spec(product@, version@),
{
    let mut t = chars_of(product);
    append_str(&mut t, "/");
    append_str(&mut t, version);
    string_of(&t)
}

} // verus!
