//! Decimal integer parsing with the rules of std's `FromStr` for integers.
use vstd::prelude::*;

verus! {

/// Why a decimal integer could not be read (std `IntErrorKind`).
#[derive(Clone, Copy, PartialEq, Eq, Structural)]
pub enum IntError {
    Empty,
    InvalidDigit,
    PosOverflow,
    NegOverflow,
}

/// Outcome of reading digits left to right into an accumulator.
pub open spec fn scan_digits(acc: int, neg: bool, ds: Seq<char>, lo: int, hi: int) -> Result<int, IntError>
    decreases ds.len(),
{
    if ds.len() == 0 {
        Ok(acc)
    } else if !('0' <= ds[0] && ds[0] <= '9') {
        Err(IntError::InvalidDigit)
    } else {
        let d = ds[0] as int - '0' as int;
        let next = if neg { acc * 10 - d } else { acc * 10 + d };
        if next > hi {
            Err(IntError::PosOverflow)
        } else if next < lo {
            Err(IntError::NegOverflow)
        } else {
            scan_digits(next, neg, ds.drop_first(), lo, hi)
        }
    }
}

/// `s.parse()` into an integer type whose range is `[lo, hi]`; `signed` types accept a
/// leading `-`, every type accepts a leading `+`.
pub open spec fn parse_int_spec(s: Seq<char>, signed: bool, lo: int, hi: int) -> Result<int, IntError> {
    if s.len() == 0 {
        Err(IntError::Empty)
    } else if (s[0] == '+' || s[0] == '-') && s.len() == 1 {
        Err(IntError::InvalidDigit)
    } else if s[0] == '+' {
        scan_digits(0, false, s.drop_first(), lo, hi)
    } else if s[0] == '-' && signed {
        scan_digits(0, true, s.drop_first(), lo, hi)
    } else {
        scan_digits(0, false, s, lo, hi)
    }
}

/// The value of a run of ASCII decimal digits.
pub open spec fn digits_value(ds: Seq<char>) -> int
    decreases ds.len(),
{
    if ds.len() == 0 {
        0
    } else {
        digits_value(ds.drop_last()) * 10 + (ds.last() as int - '0' as int)
    }
}

/// Reads an integer in `[lo, hi]` from `s` as std's `str::parse` does.
pub fn parse_int(s: &Vec<char>, signed: bool, lo: i64, hi: i64) -> (r: Result<i64, IntError>)
    requires
        lo <= 0 <= hi,
    ensures
        match parse_int_spec(s@, signed, lo as int, hi as int) {
            Ok(v) => r == Ok::<i64, IntError>(v as i64) && lo <= v <= hi,
            Err(e) => r == Err::<i64, IntError>(e),
        },
{
    if s.len() == 0 {
        return Err(IntError::Empty);
    }
    if (s[0] == '+' || s[0] == '-') && s.len() == 1 {
        return Err(IntError::InvalidDigit);
    }
    let mut neg = false;
    let mut start: usize = 0;
    if s[0] == '+' {
        start = 1;
    } else if s[0] == '-' && signed {
        neg = true;
        start = 1;
    }
    let ghost ds = s@.subrange(start as int, s@.len() as int);
    assert(start == 1 ==> ds =~= s@.drop_first());
    assert(start == 0 ==> ds =~= s@);
    assert(parse_int_spec(s@, signed, lo as int, hi as int) == scan_digits(0, neg, ds, lo as int, hi as int));
    assert(s@.subrange(start as int, s@.len() as int) == ds);
    let mut acc: i64 = 0;
    let mut i: usize = start;
    while i < s.len()
        invariant
            start <= i <= s.len(),
            lo <= 0 <= hi,
            lo <= acc <= hi,
            ds == s@.subrange(start as int, s@.len() as int),
            parse_int_spec(s@, signed, lo as int, hi as int) == scan_digits(0, neg, ds, lo as int, hi as int),
            scan_digits(0, neg, ds, lo as int, hi as int) == scan_digits(
                acc as int,
                neg,
                s@.subrange(i as int, s@.len() as int),
                lo as int,
                hi as int,
            ),
        decreases s.len() - i,
    {
        let c = s[i];
        let ghost rest = s@.subrange(i as int, s@.len() as int);
        assert(rest[0] == c);
        assert(rest.len() > 0);
        if !('0' <= c && c <= '9') {
            assert(scan_digits(acc as int, neg, rest, lo as int, hi as int) == Err::<int, IntError>(IntError::InvalidDigit));
            return Err(IntError::InvalidDigit);
        }
        let d = (c as u32 - '0' as u32) as i128;
        assert(d == c as int - '0' as int);
        let next: i128 = if neg { acc as i128 * 10 - d } else { acc as i128 * 10 + d };
        if next > hi as i128 {
            assert(scan_digits(acc as int, neg, rest, lo as int, hi as int) == Err::<int, IntError>(IntError::PosOverflow));
            return Err(IntError::PosOverflow);
        }
        if next < lo as i128 {
            return Err(IntError::NegOverflow);
        }
        assert(rest.drop_first() =~= s@.subrange(i + 1, s@.len() as int));
        acc = next as i64;
        i = i + 1;
    }
    Ok(acc)
}

/// The message std prints for an integer parse error (`ParseIntError`'s `Display`).
pub open spec fn int_error_text(e: IntError) -> Seq<char> {
    match e {
        IntError::Empty => "cannot parse integer from empty string"@,
        IntError::InvalidDigit => "invalid digit found in string"@,
        IntError::PosOverflow => "number too large to fit in target type"@,
        IntError::NegOverflow => "number too small to fit in target type"@,
    }
}

/// The message of an integer parse error.
pub fn int_error_message(e: IntError) -> (m: String)
    ensures
        m@ == int_error_text(e),
{
    match e {
        IntError::Empty => String::from_str("cannot parse integer from empty string"),
        IntError::InvalidDigit => String::from_str("invalid digit found in string"),
        IntError::PosOverflow => String::from_str("number too large to fit in target type"),
        IntError::NegOverflow => String::from_str("number too small to fit in target type"),
    }
}

} // verus!
