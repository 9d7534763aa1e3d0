//! Decimal integers as std's `FromStr` for the integer types reads them:
//! an optional sign (`+`, or `-` for signed types) followed by one or more
//! ASCII digits, whose value must fit the type. Nothing else may precede or
//! follow the digits.

use vstd::prelude::*;

verus! {

/// True for `'0'` through `'9'`.
pub open spec fn is_ascii_digit(c: char) -> bool {
    48 <= (c as u32) && (c as u32) <= 57
}

/// True when `d` is one or more ASCII digits.
pub open spec fn is_digits(d: Seq<char>) -> bool {
    &&& d.len() > 0
    &&& forall|i: int| 0 <= i < d.len() ==> is_ascii_digit(#[trigger] d[i])
}

/// The value of the ASCII digits `d`, most significant first.
pub open spec fn digits_value(d: Seq<char>) -> int
    decreases d.len(),
{
    if d.len() == 0 {
        0
    } else {
        10 * digits_value(d.drop_last()) + ((d.last() as u32) - 48)
    }
}

/// The value that `s` spells, if it is a decimal integer; a leading `-` is
/// taken only when `signed`.
pub open spec fn decimal_value(s: Seq<char>, signed: bool) -> Option<int> {
    if s.len() > 0 && s[0] == '+' && is_digits(s.drop_first()) {
        Some(digits_value(s.drop_first()))
    } else if signed && s.len() > 0 && s[0] == '-' && is_digits(s.drop_first()) {
        Some(-digits_value(s.drop_first()))
    } else if is_digits(s) {
        Some(digits_value(s))
    } else {
        None
    }
}

/// The `i32` that `s` spells, `None` when `s` is not a decimal integer or
/// its value is out of range.
pub open spec fn decimal_i32(s: Seq<char>) -> Option<i32> {
    match decimal_value(s, true) {
        Some(v) => if i32::MIN <= v <= i32::MAX {
            Some(v as i32)
        } else {
            None
        },
        None => None,
    }
}

/// The `usize` that `s` spells, `None` when `s` is not an unsigned decimal
/// integer or its value is out of range.
pub open spec fn decimal_usize(s: Seq<char>) -> Option<usize> {
    match decimal_value(s, false) {
        Some(v) => if 0 <= v <= usize::MAX {
            Some(v as usize)
        } else {
            None
        },
        None => None,
    }
}

/// Relies on `str::parse::<i32>` (`<i32 as FromStr>::from_str`): it accepts
/// an optional `+` or `-` and then only ASCII digits, with the value in range.
#[verifier::external_body]
pub(crate) fn parse_i32(s: &str) -> (r: Option<i32>)
    ensures
        r == decimal_i32(s@),
{
    s.parse::<i32>().ok()
}

/// Relies on `str::parse::<usize>` (`<usize as FromStr>::from_str`): it
/// accepts an optional `+` and then only ASCII digits, with the value in range.
#[verifier::external_body]
pub(crate) fn parse_usize(s: &str) -> (r: Option<usize>)
    ensures
        r == decimal_usize(s@),
{
    s.parse::<usize>().ok()
}

} // verus!
