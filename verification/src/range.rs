//! The interval of numbers that a RUT can have.

use vstd::prelude::*;
use rand::Rng;
use crate::grouping::{group_thousands, grouped};

verus! {

/// The least number of the interval.
pub const MIN: u32 = 1_000_000;

/// The upper bound of the interval, which is itself outside of it.
pub const MAX: u32 = 99_999_999;

/// The two bounds of the interval.
#[derive(Debug, Clone, Copy, PartialEq, Eq)]
pub enum Range {
    MIN,
    MAX,
}

/// `n` lies in the interval: from `MIN` on and below `MAX`.
pub open spec fn in_range(n: nat) -> bool {
    MIN <= n < MAX
}

impl Range {
    /// The number that this bound stands for.
    pub open spec fn value(self) -> nat {
        match self {
            Range::MIN => MIN as nat,
            Range::MAX => MAX as nat,
        }
    }

    /// The number that this bound stands for.
    pub fn to_u32(&self) -> (n: u32)
        ensures
            n == self.value(),
    {
        match self {
            Range::MIN => MIN,
            Range::MAX => MAX,
        }
    }

    /// Whether `number` lies in the interval.
    pub fn contains(number: u32) -> (inside: bool)
        ensures
            inside == in_range(number as nat),
    {
        Range::MIN.to_u32() <= number && number < Range::MAX.to_u32()
    }

    /// The bound as text, grouped in thousands.
    pub fn to_string(&self) -> (s: String)
        ensures
            s@ == grouped(self.value()),
    {
        group_thousands(self.to_u32())
    }
}

/// A number drawn at random between two bounds.
///
/// Calls `Rng::gen_range` of `rand` on the thread's generator.  The contract
/// claims only what holds of every draw: the result is at least `min` and
/// below `max`.  `gen_range` panics unless `min < max`.
#[verifier::external_body]
fn random_range(min: u32, max: u32) -> (n: u32)
    requires
        min < max,
    ensures
        min <= n < max,
{
    let mut rand = rand::thread_rng();
    rand.gen_range(min, max)
}

/// A number of the interval, drawn at random.
pub(crate) fn random_number() -> (n: u32)
    ensures
        in_range(n as nat),
{
    random_range(MIN, MAX)
}

} // verus!
