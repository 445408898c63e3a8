//! The weighted modulo-11 checksum behind the check character.

use vstd::prelude::*;
use crate::digits::{digit_char, is_digit, lemma_decimal_digits, lemma_digit_count_u32, rev_digits};

verus! {

/// The first weight of the cycle.
pub const INIT: u8 = 2;

/// The last weight of the cycle.
pub const LIMIT: u8 = 7;

/// The weight of the digit at position `i`, counted from the least
/// significant digit: 2, 3, 4, 5, 6, 7, and then 2 again.
pub open spec fn weight(i: nat) -> nat {
    2 + i % 6
}

/// The sum of `digit * weight` over the decimal digits of `n`, where the
/// least significant digit of `n` stands at position `pos`.
pub open spec fn weighted_digits(n: nat, pos: nat) -> nat
    decreases n,
{
    if n == 0 {
        0
    } else {
        (n % 10) * weight(pos) + weighted_digits(n / 10, pos + 1)
    }
}

/// The weighted digit sum of `n`: its digits, least significant first, times
/// the weights 2, 3, 4, 5, 6, 7, 2, 3, ...
pub open spec fn weighted_total(n: nat) -> nat {
    weighted_digits(n, 0)
}

/// The sum of `digit * weight` over a digit sequence whose first digit stands
/// at position `pos`.
pub open spec fn weighted_sum(digits: Seq<u8>, pos: nat) -> nat
    decreases digits.len(),
{
    if digits.len() == 0 {
        0
    } else {
        digits[0] as nat * weight(pos) + weighted_sum(digits.drop_first(), pos + 1)
    }
}

/// What is left of eleven after the remainder of `total`: between 1 and 11.
pub open spec fn residue(total: nat) -> nat {
    (11 - total % 11) as nat
}

/// The check character of a residue: `K` for 10, `0` for 11, else the digit itself.
pub open spec fn residue_char(r: nat) -> char {
    if r == 10 {
        'K'
    } else if r == 11 {
        '0'
    } else {
        digit_char(r)
    }
}

/// The check character of the number `n`.
pub open spec fn check_digit(n: nat) -> char {
    residue_char(residue(weighted_total(n)))
}

/// `c` can be the check character of a number: a decimal digit or `K`.
pub open spec fn is_check_digit(c: char) -> bool {
    is_digit(c) || c == 'K'
}

/// The weighted digit sum of a number is the weighted sum of its reversed digits.
pub proof fn lemma_weighted_total_of_digits(n: nat, pos: nat)
    ensures
        weighted_sum(rev_digits(n), pos) == weighted_digits(n, pos),
    decreases n,
{
    let digits = rev_digits(n);
    assert(digits[0] as nat == n % 10);
    if n < 10 {
        assert(digits.drop_first().len() == 0);
        assert(weighted_sum(digits.drop_first(), pos + 1) == 0);
        assert(weighted_digits(n / 10, pos + 1) == 0);
        assert(n == 0 ==> digits[0] as nat * weight(pos) == 0);
    } else {
        lemma_weighted_total_of_digits(n / 10, pos + 1);
        assert(digits.drop_first() =~= rev_digits(n / 10));
    }
}

/// One step of the weighted digit sum: the last digit with the weight of its
/// position, and the sum over the digits before it.
pub proof fn lemma_weighted_digits_step(n: nat, pos: nat)
    ensures
        weighted_digits(n, pos) == (n % 10) * weight(pos) + weighted_digits(n / 10, pos + 1),
{
    if n == 0 {
        assert(weighted_digits(0, pos + 1) == 0);
        assert(0 * weight(pos) == 0) by (nonlinear_arith);
    }
}

/// The weighted digit sum of a number of at most eight digits, written out:
/// each digit with its weight.
pub proof fn lemma_weighted_total_of_eight(n: nat)
    requires
        n < 100_000_000,
    ensures
        weighted_total(n) == 2 * (n % 10) + 3 * (n / 10 % 10) + 4 * (n / 100 % 10) + 5 * (n / 1_000
            % 10) + 6 * (n / 10_000 % 10) + 7 * (n / 100_000 % 10) + 2 * (n / 1_000_000 % 10) + 3
            * (n / 10_000_000 % 10),
{
    let d1 = n / 10;
    let d2 = d1 / 10;
    let d3 = d2 / 10;
    let d4 = d3 / 10;
    let d5 = d4 / 10;
    let d6 = d5 / 10;
    let d7 = d6 / 10;
    assert(d2 == n / 100 && d3 == n / 1_000 && d4 == n / 10_000 && d5 == n / 100_000 && d6 == n
        / 1_000_000 && d7 == n / 10_000_000);
    assert(d7 / 10 == 0);
    assert(weight(0) == 2 && weight(1) == 3 && weight(2) == 4 && weight(3) == 5 && weight(4) == 6
        && weight(5) == 7 && weight(6) == 2 && weight(7) == 3);
    lemma_weighted_digits_step(n, 0);
    lemma_weighted_digits_step(d1, 1);
    lemma_weighted_digits_step(d2, 2);
    lemma_weighted_digits_step(d3, 3);
    lemma_weighted_digits_step(d4, 4);
    lemma_weighted_digits_step(d5, 5);
    lemma_weighted_digits_step(d6, 6);
    lemma_weighted_digits_step(d7, 7);
    assert(weighted_digits(0, 8) == 0);
}

/// Every number has a check character that is a decimal digit or `K`.
pub proof fn lemma_check_digit_symbol(n: nat)
    ensures
        is_check_digit(check_digit(n)),
{
}

/// What is left of eleven after the remainder of `number`.
pub fn mod_eleven(number: u32) -> (r: u8)
    ensures
        r == residue(number as nat),
        1 <= r <= 11,
{
    11 - (number % 11) as u8
}

/// The decimal digits of `number`, least significant first.
pub fn reversed_numbers(number: u32) -> (digits: Vec<u8>)
    ensures
        digits@ == rev_digits(number as nat),
{
    let mut digits: Vec<u8> = Vec::new();
    let mut rest: u32 = number;
    while rest >= 10
        invariant
            digits@ + rev_digits(rest as nat) == rev_digits(number as nat),
        decreases rest,
    {
        let digit: u8 = (rest % 10) as u8;
        proof {
            assert(rev_digits(rest as nat) == seq![digit] + rev_digits((rest / 10) as nat));
            assert(digits@.push(digit) + rev_digits((rest / 10) as nat) =~= digits@ + rev_digits(
                rest as nat,
            ));
        }
        digits.push(digit);
        rest = rest / 10;
    }
    digits.push(rest as u8);
    assert(digits@ =~= rev_digits(number as nat));
    digits
}

/// Keeps a weight inside the cycle: one past the last weight starts over.
pub fn limit_range(number: u8) -> (r: u8)
    ensures
        r == (if number > LIMIT { INIT } else { number }),
{
    if number > LIMIT {
        INIT
    } else {
        number
    }
}

/// The weighted digit sum of `number`.
pub fn sum_product(number: u32) -> (total: u32)
    ensures
        total == weighted_total(number as nat),
{
    let mut total: u32 = 0;
    let mut range: u8 = INIT;
    let numbers = reversed_numbers(number);
    let count = numbers.len();
    let mut i: usize = 0;
    proof {
        lemma_decimal_digits(number as nat);
        lemma_digit_count_u32(number);
        lemma_weighted_total_of_digits(number as nat, 0);
        assert(numbers@.skip(0) =~= numbers@);
    }
    while i < count
        invariant
            i <= count <= 10,
            count == numbers@.len(),
            numbers@ == rev_digits(number as nat),
            forall|k: int| 0 <= k < numbers@.len() ==> #[trigger] numbers@[k] < 10,
            range == weight(i as nat),
            total <= 63 * i,
            total + weighted_sum(numbers@.skip(i as int), i as nat) == weighted_total(
                number as nat,
            ),
        decreases count - i,
    {
        let digit: u8 = numbers[i];
        proof {
            let rest = numbers@.skip(i as int);
            assert(rest[0] == digit);
            assert(rest.drop_first() =~= numbers@.skip(i + 1));
            assert(digit * range <= 63) by (nonlinear_arith)
                requires
                    digit < 10,
                    range <= 7,
            ;
        }
        total = total + (digit * range) as u32;
        range = limit_range(range + 1);
        i = i + 1;
    }
    assert(numbers@.skip(i as int).len() == 0);
    total
}

} // verus!
