//! Unsigned decimal numbers as they stand in the cells of a table.
use vstd::prelude::*;

verus! {

/// `c` is one of the ten decimal digits.
pub open spec fn is_digit(c: char) -> bool {
    48 <= c as u32 <= 57
}

/// The number that a sequence of decimal digits denotes (0 for none).
pub open spec fn digits_value(digits: Seq<char>) -> nat
    decreases digits.len(),
{
    if digits.len() == 0 {
        0
    } else {
        10 * digits_value(digits.drop_last()) + (digits.last() as u32 - 48) as nat
    }
}

/// The number that `text` denotes: an optional plus sign, then one decimal
/// digit or more and nothing else, with a value that fits in 64 bits.
/// Leading zeros are accepted. Anything else denotes no number.
pub open spec fn decimal_u64(text: Seq<char>) -> Option<u64> {
    let digits = if text.len() > 0 && text[0] == '+' {
        text.skip(1)
    } else {
        text
    };
    if digits.len() > 0 && (forall|i: int| 0 <= i < digits.len() ==> is_digit(#[trigger] digits[i]))
        && digits_value(digits) <= u64::MAX {
        Some(digits_value(digits) as u64)
    } else {
        None
    }
}

/// Calls `str::parse::<u64>` of the standard library. The contract claims
/// what its documentation says: the text is accepted where it is an
/// optional plus sign followed by decimal digits only, at least one, whose
/// value does not overflow, and the result is then that value; an empty
/// text, any other character and an overflow are errors, here `None`.
#[verifier::external_body]
pub(crate) fn parse_u64(text: &str) -> (value: Option<u64>)
    ensures
        value == decimal_u64(text@),
{
    text.parse::<u64>().ok()
}

} // verus!
