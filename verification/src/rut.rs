//! The RUT itself: how it is made, read and written.

use vstd::prelude::*;
use crate::checksum::{check_digit, is_check_digit, mod_eleven, sum_product};
use crate::digits::decimal;
use crate::error::Error;
use crate::grouping::{group_thousands, grouped};
use crate::parser::{extract, extracted, UnverifiedRut};
use crate::range::{in_range, random_number, Range};
use crate::text::{decimal_string, digit_to_char, DASH};

verus! {

/// A RUT as a mathematical value: a number and a check character.
pub struct RutView {
    pub number: nat,
    pub dv: char,
}

/// The number lies in the interval and the check character is that of the number.
pub open spec fn is_valid(v: RutView) -> bool {
    &&& in_range(v.number)
    &&& v.dv == check_digit(v.number)
}

/// A validated RUT.  Its number lies in the interval and its check character
/// is the check character of its number: no other value of this type exists.
#[derive(Debug, Clone, Copy, PartialEq, Eq)]
pub struct Rut {
    number: u32,
    dv: char,
}

/// The textual formats of a RUT.
#[derive(Debug, Clone, Copy, PartialEq, Eq)]
pub enum Format {
    /// The number grouped in thousands, a dash, the check character: `17.951.585-7`.
    DOTS,
    /// The plain number, a dash, the check character: `17951585-7`.
    DASH,
    /// The plain number and the check character: `179515857`.
    NONE,
}

impl View for Rut {
    type V = RutView;

    closed spec fn view(&self) -> RutView {
        RutView { number: self.number as nat, dv: self.dv }
    }
}

/// The text of the RUT `v` in the given format.
pub open spec fn rendered(v: RutView, format: Format) -> Seq<char> {
    match format {
        Format::DOTS => grouped(v.number) + seq![DASH, v.dv],
        Format::DASH => decimal(v.number) + seq![DASH, v.dv],
        Format::NONE => decimal(v.number) + seq![v.dv],
    }
}

/// The RUT with the number `n`, or why there is none.
pub open spec fn numbered(n: nat) -> Result<RutView, Error> {
    if in_range(n) {
        Ok(RutView { number: n, dv: check_digit(n) })
    } else {
        Err(Error::OutOfRange)
    }
}

/// The RUT that a claimed number and check character make, or why they make
/// none: the number is judged first, then the check character.
pub open spec fn verified(claim: RutView) -> Result<RutView, Error> {
    match numbered(claim.number) {
        Ok(signed) => if claim.dv == signed.dv {
            Ok(signed)
        } else {
            Err(Error::InvalidDV { must_be: signed.dv, instead: claim.dv })
        },
        Err(error) => Err(error),
    }
}

/// The RUT that the text `s` denotes, or why it denotes none: the shape is
/// judged first, then the number, then the check character.
pub open spec fn parsed(s: Seq<char>) -> Result<RutView, Error> {
    match extracted(s) {
        Some(claim) => verified(claim),
        None => Err(Error::InvalidFormat),
    }
}

/// The result of making a RUT, as a mathematical value.
pub open spec fn outcome(r: Result<Rut, Error>) -> Result<RutView, Error> {
    match r {
        Ok(rut) => Ok(rut@),
        Err(error) => Err(error),
    }
}

impl Rut {
    /// What holds of every value of the type.
    #[verifier::type_invariant]
    spec fn well_formed(self) -> bool {
        is_valid(self@)
    }

    /// The RUT that the text denotes.
    ///
    /// Fails with `InvalidFormat` if the text does not have the shape of a
    /// RUT, else with `OutOfRange` if its number lies outside of the
    /// interval, else with `InvalidDV` if its check character is not that of
    /// its number.
    pub fn from(input: &str) -> (r: Result<Rut, Error>)
        ensures
            outcome(r) == parsed(input@),
            r matches Ok(rut) ==> is_valid(rut@),
    {
        match Rut::extract_from(input) {
            Ok(unverified_rut) => Rut::check_dv(unverified_rut),
            Err(error) => Err(error),
        }
    }

    /// The RUT with the given number.
    ///
    /// Fails with `OutOfRange` exactly if the number lies outside of the interval.
    pub fn from_number(number: u32) -> (r: Result<Rut, Error>)
        ensures
            outcome(r) == numbered(number as nat),
            r matches Ok(rut) ==> is_valid(rut@),
    {
        if Range::contains(number) {
            let dv = Rut::generate_dv(number);
            Ok(Rut { number, dv })
        } else {
            Err(Error::OutOfRange)
        }
    }

    /// A RUT with a number drawn at random from the interval.
    pub fn randomize() -> (rut: Rut)
        ensures
            is_valid(rut@),
    {
        let number = random_number();
        let dv = Rut::generate_dv(number);
        Rut { number, dv }
    }

    /// The text of the RUT in the given format.
    pub fn to_format(&self, format: Format) -> (s: String)
        ensures
            s@ == rendered(self@, format),
    {
        match format {
            Format::DOTS => {
                let mut s = group_thousands(self.number);
                s.push(DASH);
                s.push(self.dv);
                s
            },
            Format::DASH => {
                let mut s = decimal_string(self.number);
                s.push(DASH);
                s.push(self.dv);
                s
            },
            Format::NONE => {
                let mut s = decimal_string(self.number);
                s.push(self.dv);
                s
            },
        }
    }

    /// The text of the RUT with a dash before the check character.
    pub fn to_string(&self) -> (s: String)
        ensures
            s@ == rendered(self@, Format::DASH),
    {
        self.to_format(Format::DASH)
    }

    /// The number of the RUT.
    pub fn number(&self) -> (n: &u32)
        ensures
            *n == self@.number,
            in_range(*n as nat),
    {
        proof {
            use_type_invariant(self);
        }
        &self.number
    }

    /// The check character of the RUT.
    pub fn dv(&self) -> (c: &char)
        ensures
            *c == self@.dv,
            *c == check_digit(self@.number),
    {
        proof {
            use_type_invariant(self);
        }
        &self.dv
    }

    /// Holds the claimed check character against the one of the number.
    pub fn check_dv(unsigned_rut: UnverifiedRut) -> (r: Result<Rut, Error>)
        ensures
            outcome(r) == verified(unsigned_rut@),
            r matches Ok(rut) ==> is_valid(rut@),
    {
        match Rut::from_number(unsigned_rut.number) {
            Ok(signed_rut) => {
                if unsigned_rut.dv != signed_rut.dv {
                    Err(Error::InvalidDV { must_be: signed_rut.dv, instead: unsigned_rut.dv })
                } else {
                    Ok(signed_rut)
                }
            },
            Err(error) => Err(error),
        }
    }

    /// The number and the check character that the text claims.
    ///
    /// Fails with `InvalidFormat` exactly if the text does not have the shape of a RUT.
    pub fn extract_from(input: &str) -> (r: Result<UnverifiedRut, Error>)
        ensures
            match r {
                Ok(found) => extracted(input@) == Some(found@),
                Err(error) => error == Error::InvalidFormat && extracted(input@) is None,
            },
    {
        match extract(input) {
            Some(found) => Ok(found),
            None => Err(Error::InvalidFormat),
        }
    }

    /// The check character of a number, which depends on the number alone.
    pub fn generate_dv(number: u32) -> (dv: char)
        ensures
            dv == check_digit(number as nat),
            is_check_digit(dv),
    {
        let total_number = sum_product(number);
        let dv = mod_eleven(total_number);
        match dv {
            10 => 'K',
            11 => '0',
            _ => digit_to_char(dv),
        }
    }
}

} // verus!
