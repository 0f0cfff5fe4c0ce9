//! Planar values: integer polygon vertices, exact rational coordinates of
//! points on swath lines, and the ordering of rationals by value.
use vstd::arithmetic::mul::lemma_mul_inequality;
use vstd::prelude::*;

verus! {

/// A polygon vertex on the integer grid of the caller's planar unit.
#[derive(Clone, Copy, Debug, PartialEq, Eq, Structural)]
pub struct Point {
    pub x: i32,
    pub y: i32,
}

/// The rational number `num / den`. Two ratios with the same value may
/// differ in representation; `==` compares representations, `le` and `lt`
/// compare values.
#[derive(Clone, Copy, Debug, PartialEq, Eq, Structural)]
pub struct Ratio {
    pub num: i128,
    pub den: i128,
}

/// A point of the coverage path. Its coordinates are exact rationals: a
/// crossing of a polygon edge with a swath line need not lie on the grid.
#[derive(Clone, Copy, Debug, PartialEq, Eq, Structural)]
pub struct PathPoint {
    pub x: Ratio,
    pub y: Ratio,
}

/// One traversable stretch of a swath line, from an entry to an exit
/// crossing of the polygon boundary.
#[derive(Clone, Copy, Debug, PartialEq, Eq, Structural)]
pub struct Segment {
    pub start: PathPoint,
    pub end: PathPoint,
}

/// The coordinate of `p` along the x axis when `x_axis` holds, else along y.
pub open spec fn coord(p: Point, x_axis: bool) -> int {
    if x_axis {
        p.x as int
    } else {
        p.y as int
    }
}

impl Ratio {
    /// A positive denominator and magnitudes small enough that the
    /// cross products of two ratios fit in `i128`.
    pub open spec fn wf(self) -> bool {
        &&& 0 < self.den <= 0x100_0000_0000
        &&& -0x1_0000_0000_0000_0000_0000 <= self.num <= 0x1_0000_0000_0000_0000_0000
    }

    /// `self <= other` by value.
    pub open spec fn le(self, other: Ratio) -> bool {
        self.num * other.den <= other.num * self.den
    }

    /// `self < other` by value.
    pub open spec fn lt(self, other: Ratio) -> bool {
        self.num * other.den < other.num * self.den
    }

    /// The ratio `num / den` read from a doubled integer: `half(h)` is `h / 2`.
    pub open spec fn half(h: int) -> Ratio {
        Ratio { num: h as i128, den: 2 }
    }

    /// Compares two ratios by value.
    pub fn less_than(&self, other: &Ratio) -> (r: bool)
        requires
            self.wf(),
            other.wf(),
        ensures
            r == self.lt(*other),
    {
        proof {
            lemma_cross_product_bound(self.num as int, other.den as int);
            lemma_cross_product_bound(other.num as int, self.den as int);
        }
        self.num * other.den < other.num * self.den
    }
}

/// A numerator times a denominator of well-formed ratios fits in `i128`.
pub proof fn lemma_cross_product_bound(n: int, d: int)
    requires
        -0x1_0000_0000_0000_0000_0000 <= n <= 0x1_0000_0000_0000_0000_0000,
        0 < d <= 0x100_0000_0000,
    ensures
        -0x100_0000_0000_0000_0000_0000_0000_0000 <= n * d <= 0x100_0000_0000_0000_0000_0000_0000_0000,
{
    let big: int = 0x1_0000_0000_0000_0000_0000;
    let dbig: int = 0x100_0000_0000;
    lemma_mul_inequality(n, big, d);
    lemma_mul_inequality(-big, n, d);
    lemma_mul_inequality(d, dbig, big);
    assert((-big) * d == -(big * d)) by (nonlinear_arith);
    assert(big * d == d * big) by (nonlinear_arith);
    assert(big * dbig == 0x100_0000_0000_0000_0000_0000_0000_0000) by (nonlinear_arith)
        requires
            big == 0x1_0000_0000_0000_0000_0000,
            dbig == 0x100_0000_0000,
    ;
}

/// The order of ratios by value is transitive.
pub proof fn lemma_le_transitive(a: Ratio, b: Ratio, c: Ratio)
    requires
        a.den > 0,
        b.den > 0,
        c.den > 0,
        a.le(b),
        b.le(c),
    ensures
        a.le(c),
{
    let (an, ad, bn, bd, cn, cd) = (
        a.num as int,
        a.den as int,
        b.num as int,
        b.den as int,
        c.num as int,
        c.den as int,
    );
    assert(an * cd <= cn * ad) by (nonlinear_arith)
        requires
            ad > 0,
            bd > 0,
            cd > 0,
            an * bd <= bn * ad,
            bn * cd <= cn * bd,
    ;
}

/// A strict and a weak step give a strict step.
pub proof fn lemma_lt_le_transitive(a: Ratio, b: Ratio, c: Ratio)
    requires
        a.den > 0,
        b.den > 0,
        c.den > 0,
        a.lt(b),
        b.le(c),
    ensures
        a.lt(c),
{
    let (an, ad, bn, bd, cn, cd) = (
        a.num as int,
        a.den as int,
        b.num as int,
        b.den as int,
        c.num as int,
        c.den as int,
    );
    assert(an * cd < cn * ad) by (nonlinear_arith)
        requires
            ad > 0,
            bd > 0,
            cd > 0,
            an * bd < bn * ad,
            bn * cd <= cn * bd,
    ;
}

} // verus!
