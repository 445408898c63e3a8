//! Numerals with their digits grouped in thousands.

use vstd::prelude::*;
use num_format::{Locale, ToFormattedString};
use crate::digits::{decimal, digit_char};
use crate::text::DOT;

verus! {

/// The three digits of `n`, for `n < 1000`, with leading zeros.
pub open spec fn group_of_three(n: nat) -> Seq<char> {
    seq![digit_char(n / 100 % 10), digit_char(n / 10 % 10), digit_char(n % 10)]
}

/// The decimal numeral of `n` with a dot before every group of three
/// digits, counted from the right: `17.951.585`.
pub open spec fn grouped(n: nat) -> Seq<char>
    decreases n,
{
    if n < 1000 {
        decimal(n)
    } else {
        grouped(n / 1000) + seq![DOT] + group_of_three(n % 1000)
    }
}

/// The numeral of `n` grouped in thousands, as `num_format` writes it.
///
/// Calls `ToFormattedString::to_formatted_string` of `num_format` with the
/// locale `es_CL`.  That locale has the separator `.` and the standard
/// grouping, so the contract claims that the result is the plain decimal
/// numeral with a dot put before each group of three digits from the right.
#[verifier::external_body]
pub(crate) fn group_thousands(n: u32) -> (s: String)
    ensures
        s@ == grouped(n as nat),
{
    n.to_formatted_string(&Locale::es_CL)
}

} // verus!
