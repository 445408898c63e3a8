//! The characters between the digits of a RUT, and strings built of digits.

use vstd::prelude::*;
use crate::checksum::reversed_numbers;
use crate::digits::{decimal, digit_char, is_digit, lemma_decimal_digits, rev_digits};

verus! {

/// The character that separates two groups of three digits.
pub const DOT: char = '.';

/// The character that stands before the check character.
pub const DASH: char = '-';

/// `String::push` of the standard library: the string afterwards is the
/// string before with the one character appended at its end.
pub assume_specification[ String::push ](s: &mut String, ch: char)
    ensures
        final(s)@ == old(s)@.push(ch),
;

/// The character that shows the digit `d`.
pub(crate) fn digit_to_char(d: u8) -> (c: char)
    requires
        d < 10,
    ensures
        c == digit_char(d as nat),
        is_digit(c),
{
    (48u8 + d) as char
}

/// The decimal numeral of `n`.
pub fn decimal_string(n: u32) -> (s: String)
    ensures
        s@ == decimal(n as nat),
{
    let digits = reversed_numbers(n);
    let count = digits.len();
    let mut s = String::new();
    let mut left: usize = count;
    proof {
        lemma_decimal_digits(n as nat);
    }
    while left > 0
        invariant
            left <= count,
            count == digits@.len(),
            digits@ == rev_digits(n as nat),
            decimal(n as nat).len() == count,
            forall|i: int|
                0 <= i < count ==> #[trigger] decimal(n as nat)[i] == digit_char(
                    digits@[count - 1 - i] as nat,
                ),
            forall|i: int| 0 <= i < count ==> #[trigger] digits@[i] < 10,
            s@ == decimal(n as nat).subrange(0, count - left),
        decreases left,
    {
        left = left - 1;
        let c = digit_to_char(digits[left]);
        proof {
            let d = decimal(n as nat);
            assert(d[count - 1 - left] == c);
            assert(d.subrange(0, count - left) =~= d.subrange(0, count - 1 - left).push(c));
        }
        s.push(c);
    }
    assert(decimal(n as nat).subrange(0, count as int) =~= decimal(n as nat));
    s
}

} // verus!
