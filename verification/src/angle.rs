//! Angles inside one octant, as exact fractions.

use vstd::prelude::*;

verus! {

/// A non-negative fraction `num / den` with `den > 0`.
pub struct Fraction {
    pub num: int,
    pub den: int,
}

impl Fraction {
    /// Numerator non-negative, denominator positive.
    pub open spec fn wf(self) -> bool {
        0 <= self.num && 0 < self.den
    }

    /// `self < other` as rational numbers.
    pub open spec fn lt(self, other: Fraction) -> bool {
        self.num * other.den < other.num * self.den
    }

    /// `self == other` as rational numbers.
    pub open spec fn same(self, other: Fraction) -> bool {
        self.num * other.den == other.num * self.den
    }

    /// Strictly between `start` and `end`: the end points are not inside.
    pub open spec fn inside(self, start: Fraction, end: Fraction) -> bool {
        start.lt(self) && self.lt(end)
    }
}

/// The angle under which a point of a cell is seen, as a fraction of the
/// octant's width. Both parts fit in 32 bits plus one, so that products of two
/// of them fit in 128 bits with room to spare.
#[derive(Clone, Copy, Debug)]
pub struct Angle {
    num: u64,
    den: u64,
}

impl View for Angle {
    type V = Fraction;

    closed spec fn view(&self) -> Fraction {
        Fraction { num: self.num as int, den: self.den as int }
    }
}

impl Angle {
    /// The angle `num / den`.
    pub fn new(num: u64, den: u64) -> (a: Angle)
        ensures
            a@ == (Fraction { num: num as int, den: den as int }),
    {
        Angle { num, den }
    }

    /// The zero angle, `0 / 1`.
    pub fn zero() -> (a: Angle)
        ensures
            a@ == (Fraction { num: 0, den: 1 }),
    {
        Angle { num: 0, den: 1 }
    }

    pub fn numerator(&self) -> (n: u64)
        ensures
            n == self@.num,
    {
        self.num
    }

    pub fn denominator(&self) -> (d: u64)
        ensures
            d == self@.den,
    {
        self.den
    }

    /// Whether `self` is strictly smaller than `other`.
    pub fn less_than(&self, other: &Angle) -> (b: bool)
        ensures
            b == self@.lt(other@),
    {
        proof {
            lemma_product_fits(self.num, other.den);
            lemma_product_fits(other.num, self.den);
        }
        let left: u128 = (self.num as u128) * (other.den as u128);
        let right: u128 = (other.num as u128) * (self.den as u128);
        left < right
    }
}

/// The product of two 64-bit numbers fits in 128 bits.
proof fn lemma_product_fits(a: u64, b: u64)
    ensures
        0 <= (a as int) * (b as int) <= u128::MAX,
{
    assert(0 <= (a as int) * (b as int) <= 0xffff_ffff_ffff_ffff * 0xffff_ffff_ffff_ffff)
        by (nonlinear_arith)
        requires
            0 <= a <= 0xffff_ffff_ffff_ffff,
            0 <= b <= 0xffff_ffff_ffff_ffff,
    ;
}

/// Whether `angle` lies strictly between `start` and `end`. The end points
/// themselves are not contained.
pub fn angle_contained_in(angle: &Angle, start: &Angle, end: &Angle) -> (b: bool)
    ensures
        b == angle@.inside(start@, end@),
{
    start.less_than(angle) && angle.less_than(end)
}

/// Visibility of a cell from the visibility of its centre and of its near and
/// far edges: the centre must be seen, and one edge with it.
pub open spec fn visible_when_spec(center: bool, near: bool, far: bool) -> bool {
    center && (near || far)
}

/// Decides the visibility of a cell from what is seen of its centre, its near
/// edge and its far edge.
#[verifier::when_used_as_spec(visible_when_spec)]
pub fn visible_when(center: bool, near: bool, far: bool) -> (v: bool)
    ensures
        v == visible_when_spec(center, near, far),
{
    center && (near || far)
}

} // verus!
