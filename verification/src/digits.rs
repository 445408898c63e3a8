//! Decimal digits: the digit characters, numerals and their values.

use vstd::prelude::*;

verus! {

/// `c` is one of the ten ASCII decimal digits.
pub open spec fn is_digit(c: char) -> bool {
    '0' <= c && c <= '9'
}

/// The character that shows the digit `d`, for `d < 10`.
pub open spec fn digit_char(d: nat) -> char {
    ('0' as nat + d) as char
}

/// The digit that the character `c` shows, for a digit character.
pub open spec fn digit_value(c: char) -> nat {
    (c as nat - '0' as nat) as nat
}

/// Every position of `s` holds a decimal digit.
pub open spec fn all_digits(s: Seq<char>) -> bool {
    forall|i: int| 0 <= i < s.len() ==> is_digit(#[trigger] s[i])
}

/// The decimal digits of `n`, least significant first; zero has the one digit 0.
pub open spec fn rev_digits(n: nat) -> Seq<u8>
    decreases n,
{
    if n < 10 {
        seq![n as u8]
    } else {
        seq![(n % 10) as u8] + rev_digits(n / 10)
    }
}

/// The decimal numeral of `n`, most significant digit first, without leading zeros.
pub open spec fn decimal(n: nat) -> Seq<char>
    decreases n,
{
    if n < 10 {
        seq![digit_char(n)]
    } else {
        decimal(n / 10).push(digit_char(n % 10))
    }
}

/// The number that is read when the digits of `s` are appended to the numeral of `acc`.
pub open spec fn append_value(acc: nat, s: Seq<char>) -> nat
    decreases s.len(),
{
    if s.len() == 0 {
        acc
    } else {
        10 * append_value(acc, s.drop_last()) + digit_value(s.last())
    }
}

/// The number that the digit string `s` denotes; leading zeros are allowed.
pub open spec fn numeral_value(s: Seq<char>) -> nat {
    append_value(0, s)
}

/// Ten to the power `k`.
pub open spec fn pow10(k: nat) -> nat
    decreases k,
{
    if k == 0 {
        1
    } else {
        10 * pow10((k - 1) as nat)
    }
}

/// A number below ten to the `k` has at most `k` digits.
pub proof fn lemma_digit_count(n: nat, k: nat)
    requires
        k >= 1,
        n < pow10(k),
    ensures
        rev_digits(n).len() <= k,
        decimal(n).len() <= k,
    decreases k,
{
    if n >= 10 {
        assert(pow10(1) == 10) by {
            reveal_with_fuel(pow10, 2);
        }
        lemma_digit_count(n / 10, (k - 1) as nat);
    }
}

/// A 32-bit number has at most ten digits.
pub proof fn lemma_digit_count_u32(n: u32)
    ensures
        rev_digits(n as nat).len() <= 10,
        decimal(n as nat).len() <= 10,
{
    assert(pow10(10) == 10_000_000_000) by {
        reveal_with_fuel(pow10, 11);
    }
    lemma_digit_count(n as nat, 10);
}

/// The character of a digit is a digit character, and its value is the digit.
pub proof fn lemma_digit_char(d: nat)
    requires
        d < 10,
    ensures
        is_digit(digit_char(d)),
        digit_value(digit_char(d)) == d,
{
}

/// The numeral of `n` consists of digits, and consists of the reversed digits
/// of `n` shown as characters.
pub proof fn lemma_decimal_digits(n: nat)
    ensures
        all_digits(decimal(n)),
        decimal(n).len() == rev_digits(n).len(),
        decimal(n).len() >= 1,
        forall|i: int|
            0 <= i < decimal(n).len() ==> #[trigger] decimal(n)[i] == digit_char(
                rev_digits(n)[decimal(n).len() - 1 - i] as nat,
            ),
        forall|i: int| 0 <= i < rev_digits(n).len() ==> #[trigger] rev_digits(n)[i] < 10,
    decreases n,
{
    if n >= 10 {
        lemma_decimal_digits(n / 10);
        let d = decimal(n);
        let r = rev_digits(n);
        assert forall|i: int| 0 <= i < d.len() implies #[trigger] d[i] == digit_char(
            r[d.len() - 1 - i] as nat,
        ) by {
            if i < d.len() - 1 {
                assert(d[i] == decimal(n / 10)[i]);
                assert(r[d.len() - 1 - i] == rev_digits(n / 10)[d.len() - 2 - i]);
            }
        }
    }
}

/// Reading a numeral gives back the number.
pub proof fn lemma_value_of_decimal(n: nat)
    ensures
        numeral_value(decimal(n)) == n,
    decreases n,
{
    if n < 10 {
        let s = decimal(n);
        assert(s.drop_last().len() == 0);
        assert(append_value(0, s.drop_last()) == 0);
    } else {
        lemma_value_of_decimal(n / 10);
        let s = decimal(n);
        assert(s.drop_last() =~= decimal(n / 10));
    }
}

/// Reading `a` and then `b` is reading the concatenation.
pub proof fn lemma_append_value_concat(acc: nat, a: Seq<char>, b: Seq<char>)
    ensures
        append_value(append_value(acc, a), b) == append_value(acc, a + b),
    decreases b.len(),
{
    if b.len() == 0 {
        assert(a + b =~= a);
    } else {
        lemma_append_value_concat(acc, a, b.drop_last());
        assert((a + b).drop_last() =~= a + b.drop_last());
        assert((a + b).last() == b.last());
    }
}

} // verus!
