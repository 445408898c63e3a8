//! What holds of parsing and rendering together.

use vstd::prelude::*;
use crate::checksum::{check_digit, lemma_check_digit_symbol};
use crate::digits::{
    all_digits, decimal, digit_char, lemma_decimal_digits, lemma_digit_char,
    lemma_value_of_decimal,
};
use crate::error::Error;
use crate::grouping::{group_of_three, grouped};
use crate::parser::{are_parts, composed, extracted, lemma_composed_is_extracted, upper};
use crate::range::in_range;
use crate::rut::{is_valid, parsed, rendered, Format, RutView};
use crate::text::DOT;

verus! {

/// The numeral of a number from a thousand on is the numeral of its
/// thousands followed by the three digits of the rest.
pub proof fn lemma_decimal_thousands(n: nat)
    requires
        n >= 1000,
    ensures
        decimal(n) == decimal(n / 1000) + group_of_three(n % 1000),
{
    let tens = n / 10;
    let hundreds = n / 100;
    assert(tens / 10 == hundreds);
    assert(hundreds / 10 == n / 1000);
    assert(n % 1000 / 100 % 10 == hundreds % 10);
    assert(n % 1000 / 10 % 10 == tens % 10);
    assert(n % 1000 % 10 == n % 10);
    assert(decimal(n) == decimal(tens).push(digit_char(n % 10)));
    assert(decimal(tens) == decimal(hundreds).push(digit_char(tens % 10)));
    assert(decimal(hundreds) == decimal(n / 1000).push(digit_char(hundreds % 10)));
    assert(decimal(n) =~= decimal(n / 1000) + group_of_three(n % 1000));
}

/// The three digits of a group are digits.
pub proof fn lemma_group_of_three(n: nat)
    ensures
        group_of_three(n).len() == 3,
        all_digits(group_of_three(n)),
{
    lemma_digit_char(n / 100 % 10);
    lemma_digit_char(n / 10 % 10);
    lemma_digit_char(n % 10);
}

/// The numeral of a number of the interval, plain and grouped: one or two
/// leading digits and two groups of three.
pub proof fn lemma_numeral_parts(n: nat)
    requires
        in_range(n),
    ensures
        1 <= decimal(n / 1_000_000).len() <= 2,
        decimal(n) == decimal(n / 1_000_000) + group_of_three(n / 1000 % 1000) + group_of_three(
            n % 1000,
        ),
        grouped(n) == decimal(n / 1_000_000) + seq![DOT] + group_of_three(n / 1000 % 1000)
            + seq![DOT] + group_of_three(n % 1000),
{
    let thousands = n / 1000;
    let millions = n / 1_000_000;
    assert(thousands / 1000 == millions);
    assert(1 <= millions < 100);
    lemma_decimal_thousands(n);
    lemma_decimal_thousands(thousands);
    lemma_decimal_digits(millions);
    assert(decimal(millions).len() <= 2) by {
        if millions >= 10 {
            assert(decimal(millions) == decimal(millions / 10).push(digit_char(millions % 10)));
        }
    }
    assert(decimal(n) =~= decimal(millions) + group_of_three(thousands % 1000) + group_of_three(
        n % 1000,
    ));
    assert(grouped(n) == grouped(thousands) + seq![DOT] + group_of_three(n % 1000));
    assert(grouped(thousands) == grouped(millions) + seq![DOT] + group_of_three(
        thousands % 1000,
    ));
    assert(grouped(millions) == decimal(millions));
}

/// Parsing the text of a valid RUT gives the RUT back, in every format.
pub proof fn lemma_parse_rendered(v: RutView, format: Format)
    requires
        is_valid(v),
    ensures
        parsed(rendered(v, format)) == Ok::<RutView, Error>(v),
{
    let n = v.number;
    let lead = decimal(n / 1_000_000);
    let middle = group_of_three(n / 1000 % 1000);
    let last = group_of_three(n % 1000);
    lemma_numeral_parts(n);
    lemma_decimal_digits(n / 1_000_000);
    lemma_group_of_three(n / 1000 % 1000);
    lemma_group_of_three(n % 1000);
    lemma_check_digit_symbol(n);
    lemma_value_of_decimal(n);
    let dots = format == Format::DOTS;
    let dash = format != Format::NONE;
    lemma_composed_is_extracted(lead, dots, middle, dots, last, dash, v.dv);
    assert(rendered(v, format) =~= composed(lead, dots, middle, dots, last, dash, v.dv));
    assert(upper(v.dv) == v.dv);
    assert(extracted(rendered(v, format)) == Some(v));
}

/// A text meets exactly one of four ends, and each on its own condition: no
/// shape; a shape and a number outside of the interval; a shape, a number of
/// the interval and another check character than that of the number; or a
/// valid RUT, which is what the text claims.
pub proof fn lemma_parse_outcomes(s: Seq<char>)
    ensures
        parsed(s) == Err::<RutView, Error>(Error::InvalidFormat) <==> extracted(s) is None,
        parsed(s) == Err::<RutView, Error>(Error::OutOfRange) <==> extracted(s) is Some
            && !in_range(extracted(s)->0.number),
        forall|must_be: char, instead: char|
            parsed(s) == Err::<RutView, Error>(Error::InvalidDV { must_be, instead }) <==> (
            extracted(s) is Some && in_range(extracted(s)->0.number) && must_be == check_digit(
                extracted(s)->0.number,
            ) && instead == extracted(s)->0.dv && instead != must_be),
        forall|v: RutView|
            parsed(s) == Ok::<RutView, Error>(v) <==> (extracted(s) == Some(v) && is_valid(v)),
{
}

/// Dots and dash do not matter: a text made of the parts of a RUT parses to
/// the same with or without each of them.
pub proof fn lemma_separators_do_not_matter(
    lead: Seq<char>,
    dot1: bool,
    middle: Seq<char>,
    dot2: bool,
    last: Seq<char>,
    dash: bool,
    check: char,
)
    requires
        are_parts(lead, middle, last, check),
    ensures
        parsed(composed(lead, dot1, middle, dot2, last, dash, check)) == parsed(
            composed(lead, false, middle, false, last, false, check),
        ),
{
    lemma_composed_is_extracted(lead, dot1, middle, dot2, last, dash, check);
    lemma_composed_is_extracted(lead, false, middle, false, last, false, check);
}

/// Whatever a text parses to is a valid RUT.
pub proof fn lemma_parsed_is_valid(s: Seq<char>)
    ensures
        parsed(s) matches Ok(v) ==> is_valid(v),
{
}

/// Rendering what a text parses to gives a text that parses to the same, and
/// rendering that again gives the same text: parsing and then rendering
/// brings every accepted text into one form, and leaves that form as it is.
pub proof fn lemma_render_parsed_is_stable(s: Seq<char>, format: Format)
    requires
        parsed(s) is Ok,
    ensures
        parsed(rendered(parsed(s)->Ok_0, format)) == parsed(s),
        rendered(parsed(rendered(parsed(s)->Ok_0, format))->Ok_0, format) == rendered(
            parsed(s)->Ok_0,
            format,
        ),
{
    lemma_parsed_is_valid(s);
    lemma_parse_rendered(parsed(s)->Ok_0, format);
}

/// Rendering a valid RUT, parsing the text and rendering again gives the
/// same text, in every pair of formats.
pub proof fn lemma_render_parse_render(v: RutView, first: Format, second: Format)
    requires
        is_valid(v),
    ensures
        parsed(rendered(v, first)) matches Ok(again) && rendered(again, second) == rendered(
            v,
            second,
        ),
{
    lemma_parse_rendered(v, first);
}

} // verus!
