//! The textual shape of a RUT, and the scanner that recognises it.
//!
//! A text has the shape when it consists of one or two digits, an optional
//! dot, three digits, an optional dot, three digits, an optional dash and one
//! check symbol, with nothing before or after.

use vstd::prelude::*;
use crate::digits::{
    all_digits, append_value, digit_value, is_digit, lemma_append_value_concat, numeral_value,
};
use crate::rut::RutView;
use crate::text::{DASH, DOT};

verus! {

/// A number and a check character as a text claims them: nothing says yet
/// that the character is the check character of the number.
#[derive(Debug, Clone, Copy, PartialEq, Eq)]
pub struct UnverifiedRut {
    pub number: u32,
    pub dv: char,
}

impl View for UnverifiedRut {
    type V = RutView;

    open spec fn view(&self) -> RutView {
        RutView { number: self.number as nat, dv: self.dv }
    }
}

/// `c` can end the text of a RUT: a digit, or the letter K in either case.
pub open spec fn is_check_symbol(c: char) -> bool {
    is_digit(c) || c == 'K' || c == 'k'
}

/// The check symbol in upper case.
pub open spec fn upper(c: char) -> char {
    if c == 'k' {
        'K'
    } else {
        c
    }
}

/// The position after an optional `c` at `pos`: one further if `c` stands there.
pub open spec fn after_optional(s: Seq<char>, pos: int, c: char) -> int {
    if 0 <= pos < s.len() && s[pos] == c {
        pos + 1
    } else {
        pos
    }
}

/// `s` has `count` digits from position `from` on.
pub open spec fn digits_at(s: Seq<char>, from: int, count: int) -> bool {
    &&& 0 <= from
    &&& from + count <= s.len()
    &&& forall|i: int| from <= i < from + count ==> is_digit(#[trigger] s[i])
}

/// Where the parts of a text begin: the middle group of digits, the last
/// group of digits and the check symbol.
pub struct Layout {
    pub middle: int,
    pub last: int,
    pub check: int,
}

/// The layout of `s` when it starts with `lead` digits.
pub open spec fn layout(s: Seq<char>, lead: int) -> Layout {
    let middle = after_optional(s, lead, DOT);
    let last = after_optional(s, middle + 3, DOT);
    let check = after_optional(s, last + 3, DASH);
    Layout { middle, last, check }
}

/// `s` has the shape of a RUT with `lead` leading digits.
pub open spec fn has_shape(s: Seq<char>, lead: int) -> bool {
    let at = layout(s, lead);
    &&& 1 <= lead <= 2
    &&& digits_at(s, 0, lead)
    &&& digits_at(s, at.middle, 3)
    &&& digits_at(s, at.last, 3)
    &&& s.len() == at.check + 1
    &&& is_check_symbol(s[at.check])
}

/// The digits of the number in a text of the shape, without the dots.
pub open spec fn number_digits(s: Seq<char>, lead: int) -> Seq<char> {
    let at = layout(s, lead);
    s.subrange(0, lead) + s.subrange(at.middle, at.middle + 3) + s.subrange(at.last, at.last + 3)
}

/// What a text of the shape with `lead` leading digits claims: the number
/// that its digits denote, and its check symbol in upper case.
pub open spec fn claim(s: Seq<char>, lead: int) -> RutView {
    RutView { number: numeral_value(number_digits(s, lead)), dv: upper(s[layout(s, lead).check]) }
}

/// What the text `s` claims, if it has the shape of a RUT.
pub open spec fn extracted(s: Seq<char>) -> Option<RutView> {
    if has_shape(s, 2) {
        Some(claim(s, 2))
    } else if has_shape(s, 1) {
        Some(claim(s, 1))
    } else {
        None
    }
}

/// A text of the shape has between eight and twelve characters.
pub proof fn lemma_shape_length(s: Seq<char>, lead: int)
    requires
        has_shape(s, lead),
    ensures
        8 <= s.len() <= 12,
        s.len() == layout(s, lead).check + 1,
        layout(s, lead).check <= lead + 9,
{
}

/// A text has the shape in at most one way: the number of leading digits
/// is determined.
pub proof fn lemma_shape_unique(s: Seq<char>)
    ensures
        !(has_shape(s, 1) && has_shape(s, 2)),
{
    if has_shape(s, 1) && has_shape(s, 2) {
        let one = layout(s, 1);
        let two = layout(s, 2);
        // With two leading digits the second character is a digit, so no dot
        // follows the one leading digit: the middle group starts at 1.
        assert(is_digit(s[1]));
        assert(one.middle == 1);
        if two.middle == 2 {
            assert(is_digit(s[4]));
            assert(one.last == 4);
            if two.last == 5 {
                assert(is_digit(s[7]));
                assert(one.check == 7);
                assert(two.check >= 8);
            } else {
                assert(two.last == 6);
                assert(s[5] == DOT);
                assert(is_digit(s[5]));
            }
        } else {
            assert(two.middle == 3);
            assert(s[2] == DOT);
            assert(is_digit(s[2]));
        }
    }
}

/// The character `c` if it is present, else nothing.
pub open spec fn optional(c: char, present: bool) -> Seq<char> {
    if present {
        seq![c]
    } else {
        Seq::empty()
    }
}

/// The parts that a text of a RUT is made of: one or two leading digits, two
/// groups of three digits and a check symbol.
pub open spec fn are_parts(lead: Seq<char>, middle: Seq<char>, last: Seq<char>, check: char) -> bool {
    &&& 1 <= lead.len() <= 2
    &&& middle.len() == 3
    &&& last.len() == 3
    &&& all_digits(lead)
    &&& all_digits(middle)
    &&& all_digits(last)
    &&& is_check_symbol(check)
}

/// The text made of the parts, with or without each of the two dots and the dash.
pub open spec fn composed(
    lead: Seq<char>,
    dot1: bool,
    middle: Seq<char>,
    dot2: bool,
    last: Seq<char>,
    dash: bool,
    check: char,
) -> Seq<char> {
    lead + optional(DOT, dot1) + middle + optional(DOT, dot2) + last + optional(DASH, dash)
        + seq![check]
}

/// Every text made of the parts of a RUT has the shape, and claims the
/// number that the digits denote and the check symbol in upper case.
pub proof fn lemma_composed_is_extracted(
    lead: Seq<char>,
    dot1: bool,
    middle: Seq<char>,
    dot2: bool,
    last: Seq<char>,
    dash: bool,
    check: char,
)
    requires
        are_parts(lead, middle, last, check),
    ensures
        extracted(composed(lead, dot1, middle, dot2, last, dash, check)) == Some(
            RutView { number: numeral_value(lead + middle + last), dv: upper(check) },
        ),
{
    let s = composed(lead, dot1, middle, dot2, last, dash, check);
    let k = lead.len() as int;
    let at = layout(s, k);
    let m = k + if dot1 { 1int } else { 0 };
    let l = m + 3 + if dot2 { 1int } else { 0 };
    let c = l + 3 + if dash { 1int } else { 0 };
    assert(s.len() == c + 1);
    assert forall|i: int| 0 <= i < k implies s[i] == lead[i] by {}
    assert forall|i: int| 0 <= i < 3 implies s[m + i] == middle[i] by {}
    assert forall|i: int| 0 <= i < 3 implies s[l + i] == last[i] by {}
    assert(s[c] == check);
    assert(dot1 ==> s[k] == DOT);
    assert(dot2 ==> s[m + 3] == DOT);
    assert(dash ==> s[l + 3] == DASH);
    assert(is_digit(middle[0]) && is_digit(last[0]));
    assert(at.middle == m);
    assert(at.last == l);
    assert(at.check == c);
    assert(has_shape(s, k)) by {
        assert forall|i: int| 0 <= i < k implies is_digit(#[trigger] s[i]) by {
            assert(is_digit(lead[i]));
        }
        assert forall|i: int| m <= i < m + 3 implies is_digit(#[trigger] s[i]) by {
            assert(is_digit(middle[i - m]));
        }
        assert forall|i: int| l <= i < l + 3 implies is_digit(#[trigger] s[i]) by {
            assert(is_digit(last[i - l]));
        }
    }
    assert(s.subrange(0, k) =~= lead);
    assert(s.subrange(m, m + 3) =~= middle);
    assert(s.subrange(l, l + 3) =~= last);
    assert(number_digits(s, k) == lead + middle + last);
    lemma_shape_unique(s);
}

/// Every text that has the shape is made of the parts of a RUT.
pub proof fn lemma_extracted_is_composed(s: Seq<char>)
    requires
        extracted(s) is Some,
    ensures
        exists|
            lead: Seq<char>,
            dot1: bool,
            middle: Seq<char>,
            dot2: bool,
            last: Seq<char>,
            dash: bool,
            check: char,
        |
            are_parts(lead, middle, last, check) && s == #[trigger] composed(
                lead,
                dot1,
                middle,
                dot2,
                last,
                dash,
                check,
            ),
{
    let k: int = if has_shape(s, 2) { 2 } else { 1 };
    let at = layout(s, k);
    let lead = s.subrange(0, k);
    let middle = s.subrange(at.middle, at.middle + 3);
    let last = s.subrange(at.last, at.last + 3);
    let check = s[at.check];
    let dot1 = at.middle != k;
    let dot2 = at.last != at.middle + 3;
    let dash = at.check != at.last + 3;
    assert(are_parts(lead, middle, last, check));
    assert(s =~= composed(lead, dot1, middle, dot2, last, dash, check));
}

/// Reading digits one after the other: the value after `count` digits from
/// `from` on is the value read so far, continued.
proof fn lemma_append_step(acc: nat, s: Seq<char>, from: int, count: int)
    requires
        0 <= from,
        0 <= count,
        from + count < s.len(),
    ensures
        append_value(acc, s.subrange(from, from + count + 1)) == 10 * append_value(
            acc,
            s.subrange(from, from + count),
        ) + digit_value(s[from + count]),
{
    let longer = s.subrange(from, from + count + 1);
    assert(longer.drop_last() =~= s.subrange(from, from + count));
    assert(longer.last() == s[from + count]);
}

/// The position after an optional `c` at `pos`.
fn skip_optional(input: &str, len: usize, pos: usize, c: char) -> (next: usize)
    requires
        len == input@.len(),
        pos < usize::MAX,
    ensures
        next == after_optional(input@, pos as int, c),
{
    if pos < len && input.get_char(pos) == c {
        pos + 1
    } else {
        pos
    }
}

/// Reads `count` digits from position `from` on and appends them to the
/// number `acc` read so far; `None` if the text does not hold them.
fn read_digits(input: &str, len: usize, from: usize, count: usize, acc: u32) -> (r: Option<u32>)
    requires
        len == input@.len(),
        count <= 3,
        acc <= 99_999,
        from + count <= usize::MAX,
    ensures
        r is Some <==> digits_at(input@, from as int, count as int),
        r matches Some(v) ==> v == append_value(
            acc as nat,
            input@.subrange(from as int, from + count),
        ),
        r matches Some(v) ==> v <= (if count == 0 {
            acc as int
        } else if count == 1 {
            acc * 10 + 9
        } else if count == 2 {
            acc * 100 + 99
        } else {
            acc * 1000 + 999
        }),
{
    if from + count > len {
        return None;
    }
    let mut value: u32 = acc;
    let mut i: usize = 0;
    assert(input@.subrange(from as int, from as int).len() == 0);
    while i < count
        invariant
            len == input@.len(),
            i <= count <= 3,
            from + count <= len,
            acc <= 99_999,
            digits_at(input@, from as int, i as int),
            value == append_value(acc as nat, input@.subrange(from as int, from + i)),
            i == 0 ==> value == acc,
            i == 1 ==> value <= acc * 10 + 9,
            i == 2 ==> value <= acc * 100 + 99,
            i == 3 ==> value <= acc * 1000 + 999,
        decreases count - i,
    {
        let c = input.get_char(from + i);
        if !(c >= '0' && c <= '9') {
            assert(!is_digit(input@[from + i]));
            return None;
        }
        proof {
            lemma_append_step(acc as nat, input@, from as int, i as int);
        }
        let digit: u32 = c as u32 - 48u32;
        value = value * 10 + digit;
        i = i + 1;
    }
    Some(value)
}

/// What the text claims if it has the shape with `lead` leading digits.
fn scan(input: &str, len: usize, lead: usize) -> (r: Option<UnverifiedRut>)
    requires
        len == input@.len(),
        len <= 12,
        1 <= lead <= 2,
    ensures
        r is Some <==> has_shape(input@, lead as int),
        r matches Some(found) ==> found@ == claim(input@, lead as int),
{
    let ghost s = input@;
    let ghost at = layout(s, lead as int);
    let first = match read_digits(input, len, 0, lead, 0) {
        Some(value) => value,
        None => { return None; },
    };
    let middle = skip_optional(input, len, lead, DOT);
    let second = match read_digits(input, len, middle, 3, first) {
        Some(value) => value,
        None => { return None; },
    };
    let last = skip_optional(input, len, middle + 3, DOT);
    let number = match read_digits(input, len, last, 3, second) {
        Some(value) => value,
        None => { return None; },
    };
    let check = skip_optional(input, len, last + 3, DASH);
    if check + 1 != len {
        return None;
    }
    let symbol = input.get_char(check);
    proof {
        let a = s.subrange(0, lead as int);
        let b = s.subrange(at.middle, at.middle + 3);
        let c = s.subrange(at.last, at.last + 3);
        lemma_append_value_concat(0, a, b);
        lemma_append_value_concat(0, a + b, c);
    }
    if symbol >= '0' && symbol <= '9' {
        Some(UnverifiedRut { number, dv: symbol })
    } else if symbol == 'K' || symbol == 'k' {
        Some(UnverifiedRut { number, dv: 'K' })
    } else {
        None
    }
}

/// What the text claims, if it has the shape of a RUT.
pub fn extract(input: &str) -> (r: Option<UnverifiedRut>)
    ensures
        match r {
            Some(found) => extracted(input@) == Some(found@),
            None => extracted(input@) is None,
        },
{
    let len = input.unicode_len();
    if len < 8 || len > 12 {
        proof {
            if has_shape(input@, 1) {
                lemma_shape_length(input@, 1);
            }
            if has_shape(input@, 2) {
                lemma_shape_length(input@, 2);
            }
        }
        return None;
    }
    match scan(input, len, 2) {
        Some(found) => Some(found),
        None => scan(input, len, 1),
    }
}

} // verus!
