//! Relevance scores and ranking.
//!
//! A score is a single-precision floating-point number. The library never
//! calculates with scores; it compares them, so it keeps their bits and orders
//! them as the numbers are ordered.
use vstd::prelude::*;

use crate::sorting;
use crate::sorting::{sort_places, SortKey};

verus! {

/// A single-precision number, by its IEEE 754 bits.
#[derive(Clone, Copy, PartialEq, Eq, Structural, Debug)]
pub struct Score {
    pub bits: u32,
}

/// The bits of positive infinity.
pub const INFINITY_BITS: u32 = 0x7f80_0000;

/// The bit of the sign.
pub const SIGN_BIT: u32 = 0x8000_0000;

impl Score {
    /// The bits stand for no number.
    pub open spec fn is_nan(self) -> bool {
        (INFINITY_BITS < self.bits && self.bits < SIGN_BIT) || self.bits > SIGN_BIT + INFINITY_BITS
    }

    /// The place of the score in the order of the numbers; both zeros are 0.
    pub open spec fn key(self) -> int {
        if self.bits < SIGN_BIT {
            self.bits as int
        } else {
            SIGN_BIT - self.bits
        }
    }

    /// The score is a smaller number than the other.
    pub open spec fn lt(self, other: Score) -> bool {
        !self.is_nan() && !other.is_nan() && self.key() < other.key()
    }

    /// The score with these bits.
    pub fn from_bits(bits: u32) -> (r: Score)
        ensures
            r.bits == bits,
    {
        Score { bits }
    }

    /// The bits of the score.
    pub fn to_bits(self) -> (r: u32)
        ensures
            r == self.bits,
    {
        self.bits
    }

    /// The score 0.0.
    pub fn zero() -> (r: Score)
        ensures
            r.bits == 0,
    {
        Score { bits: 0 }
    }

    /// Whether the bits stand for no number.
    pub fn nan(self) -> (r: bool)
        ensures
            r == self.is_nan(),
    {
        (INFINITY_BITS < self.bits && self.bits < SIGN_BIT) || self.bits > SIGN_BIT + INFINITY_BITS
    }

    fn rank(self) -> (r: i64)
        ensures
            r == self.key(),
    {
        if self.bits < SIGN_BIT {
            self.bits as i64
        } else {
            SIGN_BIT as i64 - self.bits as i64
        }
    }

    /// Whether the score is a smaller number than the other.
    pub fn less(self, other: Score) -> (r: bool)
        ensures
            r == self.lt(other),
    {
        !self.nan() && !other.nan() && self.rank() < other.rank()
    }

    /// The greater of two scores; the other one where one is not a number.
    pub open spec fn spec_max(self, other: Score) -> Score {
        if self.is_nan() || self.lt(other) {
            other
        } else {
            self
        }
    }

    /// The greater of two scores; the other one where one is not a number.
    pub fn max(self, other: Score) -> (r: Score)
        ensures
            r == self.spec_max(other),
    {
        if self.nan() || self.less(other) {
            other
        } else {
            self
        }
    }
}

/// All of the scores are numbers.
pub open spec fn all_numbers(s: Seq<Score>) -> bool {
    forall|i: int| 0 <= i < s.len() ==> !(#[trigger] s[i]).is_nan()
}

impl SortKey for Score {
    /// Higher scores come first.
    open spec fn upto(self, other: Score) -> bool {
        other.key() <= self.key()
    }

    proof fn total(a: Score, b: Score) {
    }

    proof fn transitive(a: Score, b: Score, c: Score) {
    }

    fn no_later(&self, other: &Score) -> (r: bool) {
        other.rank() <= self.rank()
    }
}

/// The places of the scores from the highest score down; equal scores keep
/// their order.
pub open spec fn ranking(s: Seq<Score>) -> Seq<usize> {
    sorting::sorting(s)
}

/// The places of the scores from the highest score down; equal scores keep
/// their order.
pub fn rank(scores: &Vec<Score>) -> (order: Vec<usize>)
    requires
        all_numbers(scores@),
    ensures
        sorting::is_sorting(scores@, order@),
        order@ == ranking(scores@),
{
    sort_places(scores)
}

/// Ranking puts the greater number first. Among numbers that are not negative
/// the greater has the greater bits, among negative ones the smaller; a negative
/// number comes behind one that is not.
pub proof fn law_greater_comes_first(a: Score, b: Score)
    requires
        !a.is_nan(),
        !b.is_nan(),
    ensures
        a.bits < SIGN_BIT && b.bits < SIGN_BIT ==> (a.upto(b) <==> b.bits <= a.bits),
        a.bits < SIGN_BIT && b.bits < SIGN_BIT ==> (a.lt(b) <==> a.bits < b.bits),
        a.bits > SIGN_BIT && b.bits > SIGN_BIT ==> (a.upto(b) <==> a.bits <= b.bits),
        a.bits < SIGN_BIT && b.bits > SIGN_BIT ==> a.upto(b) && !b.upto(a) && b.lt(a),
{
}

/// The greater of two numbers is one of them, and neither is greater.
pub proof fn law_max(a: Score, b: Score)
    requires
        !a.is_nan(),
        !b.is_nan(),
    ensures
        a.spec_max(b) == a || a.spec_max(b) == b,
        !a.spec_max(b).lt(a) && !a.spec_max(b).lt(b),
{
}

/// A score is no number where its exponent is the highest and its fraction is not
/// zero. Such a score is neither less nor greater than another. The two zeros are
/// not less than each other.
pub proof fn law_no_number(a: Score, b: Score)
    ensures
        a.is_nan() <==> (0x7f80_0000 < a.bits && a.bits < 0x8000_0000) || a.bits > 0xff80_0000,
        a.is_nan() ==> !a.lt(b) && !b.lt(a) && a.spec_max(b) == b,
        a.bits == 0 && b.bits == 0x8000_0000 ==> !a.lt(b) && !b.lt(a),
        a.bits == 0 && 0x8000_0000 < b.bits <= 0xff80_0000 ==> b.lt(a),
        a.bits == 0x8000_0000 && 0 < b.bits <= 0x7f80_0000 ==> a.lt(b),
{
}

} // verus!
