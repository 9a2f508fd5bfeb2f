//! Fresh identifiers and the wall clock, from outside the library.
use vstd::prelude::*;

use crate::text::{chars_of, take_chars};

verus! {

/// A lowercase hexadecimal digit.
pub open spec fn is_hex_lower(c: char) -> bool {
    ('0' <= c && c <= '9') || ('a' <= c && c <= 'f')
}

/// A random (version 4) UUID in its `simple` form, from `uuid::Uuid::new_v4().simple()`.
/// The uuid crate documents that form as 32 lowercase hexadecimal digits; which digits
/// come out is chance, and nothing more is claimed of them.
#[verifier::external_body]
fn uuid_simple() -> (r: String)
    ensures
        r@.len() == 32,
        forall|i: int| 0 <= i < 32 ==> #[trigger] is_hex_lower(r@[i]),
{
    uuid::Uuid::new_v4().simple().to_string()
}

/// A fresh 12-character identifier for a stored policy, route or tunnel: the first 12
/// digits of a random UUID.
pub fn new_id() -> (r: String)
    ensures
        r@.len() == 12,
        forall|i: int| 0 <= i < 12 ==> #[trigger] is_hex_lower(r@[i]),
{
    let u = uuid_simple();
    let c = chars_of(u.as_str());
    let t = take_chars(&c, 12);
    crate::text::string_of(&t)
}

/// Whether character `c` fills slot `slot` of a clock layout: `#` takes one ASCII digit,
/// any other slot is that very character.
pub open spec fn fits_slot(slot: char, c: char) -> bool {
    if slot == '#' {
        '0' <= c && c <= '9'
    } else {
        c == slot
    }
}

/// Whether `y` reads as chrono's `%Y` of a year after 1970: at least four characters, all
/// ASCII digits except a `+` that chrono puts in front of a year past 9999.
pub open spec fn year_text(y: Seq<char>) -> bool {
    y.len() >= 4 && forall|i: int| 0 <= i < y.len() ==> ('0' <= #[trigger] y[i] && y[i] <= '9') || (i == 0 && y[i] == '+')
}

/// Whether `r` is a year followed by the fixed-width `tail` of a layout (`#` a digit).
pub open spec fn clock_shaped(r: Seq<char>, tail: Seq<char>) -> bool {
    &&& r.len() >= tail.len() + 4
    &&& year_text(r.take(r.len() - tail.len()))
    &&& forall|j: int| 0 <= j < tail.len() ==> fits_slot(#[trigger] tail[j], r[r.len() - tail.len() + j])
}

/// What follows the year in `%Y-%m-%dT%H:%M:%SZ`.
pub open spec fn stamp_tail() -> Seq<char> {
    "-##-##T##:##:##Z"@
}

/// What follows the year in `%Y-%m-%d`.
pub open spec fn day_tail() -> Seq<char> {
    "-##-##"@
}

/// What follows the year in `%Y%m%dT%H%M%SZ`.
pub open spec fn compact_tail() -> Seq<char> {
    "####T######Z"@
}

/// What follows the year in `%Y-%m-%dT%H:%M:%S.000Z`.
pub open spec fn stix_tail() -> Seq<char> {
    "-##-##T##:##:##.000Z"@
}

/// The current UTC time in one of the console's strftime layouts, from
/// `chrono::Utc::now().format(layout)`. Which time is chance; chrono writes `%Y` as four
/// digits (a year past 9999 with a leading `+` and more digits) and `%m %d %H %M %S` as two
/// zero-padded digits each, so the text is a year followed by the layout's fixed tail.
#[verifier::external_body]
fn clock_text(layout: &str) -> (r: String)
    requires
        layout@ == "%Y-%m-%dT%H:%M:%SZ"@ || layout@ == "%Y-%m-%d"@ || layout@ == "%Y%m%dT%H%M%SZ"@
            || layout@ == "%Y-%m-%dT%H:%M:%S.000Z"@,
    ensures
        layout@ == "%Y-%m-%dT%H:%M:%SZ"@ ==> clock_shaped(r@, stamp_tail()),
        layout@ == "%Y-%m-%d"@ ==> clock_shaped(r@, day_tail()),
        layout@ == "%Y%m%dT%H%M%SZ"@ ==> clock_shaped(r@, compact_tail()),
        layout@ == "%Y-%m-%dT%H:%M:%S.000Z"@ ==> clock_shaped(r@, stix_tail()),
{
    chrono::Utc::now().format(layout).to_string()
}

/// The current UTC time as `YYYY-MM-DDTHH:MM:SSZ`.
pub fn utc_now() -> (r: String)
    ensures
        clock_shaped(r@, stamp_tail()),
{
    clock_text("%Y-%m-%dT%H:%M:%SZ")
}

/// The current UTC date as `YYYY-MM-DD`.
pub fn utc_day() -> (r: String)
    ensures
        clock_shaped(r@, day_tail()),
{
    clock_text("%Y-%m-%d")
}

/// The current UTC time as `YYYYMMDDTHHMMSSZ`.
pub fn utc_compact() -> (r: String)
    ensures
        clock_shaped(r@, compact_tail()),
{
    clock_text("%Y%m%dT%H%M%SZ")
}

/// The current UTC time as a STIX timestamp, `YYYY-MM-DDTHH:MM:SS.000Z`.
pub fn utc_stix() -> (r: String)
    ensures
        clock_shaped(r@, stix_tail()),
{
    clock_text("%Y-%m-%dT%H:%M:%S.000Z")
}

/// Seconds since the Unix epoch, from `chrono::Utc::now().timestamp()`. Which second is
/// chance; `Utc::now` panics on a clock set before the epoch (`expect`), so what it returns
/// is never negative.
#[verifier::external_body]
fn clock_seconds() -> (r: i64)
    ensures
        r >= 0,
{
    chrono::Utc::now().timestamp()
}

/// Seconds since the Unix epoch as an unsigned count: a time before the epoch counts as 0.
pub fn unix_seconds(t: i64) -> (r: u64)
    ensures
        r as int == if t < 0 { 0 } else { t as int },
{
    if t < 0 {
        0
    } else {
        t as u64
    }
}

/// The current Unix time in seconds (0 for a clock set before the epoch).
pub fn now_unix() -> (r: u64) {
    unix_seconds(clock_seconds())
}

} // verus!
