//! Split-line positions, held as exact fractions of an image's extent.

use vstd::prelude::*;

verus! {

/// The axis that a split line divides: a horizontal line separates rows,
/// a vertical line separates columns.
#[derive(Clone, Copy, Debug, PartialEq, Eq, Structural)]
pub enum LineKind {
    Horizontal,
    Vertical,
}

/// Position of a split line along its axis: the fraction `num / den` of the
/// image's height (horizontal lines) or width (vertical lines).
///
/// A position is well formed when `den > 0` and `num <= den`, that is when it
/// lies in `[0, 1]`. Positions are ordered by the value of the fraction, so
/// `1/2` and `2/4` stand at the same place.
#[derive(Clone, Copy, Debug, PartialEq, Eq, Structural)]
pub struct LinePos {
    pub num: usize,
    pub den: usize,
}

impl LinePos {
    pub open spec fn wf(self) -> bool {
        self.den > 0 && self.num <= self.den
    }

    /// Strictly inside the image: in the open interval `(0, 1)`.
    pub open spec fn interior(self) -> bool {
        0 < self.num < self.den
    }

    /// `self <= o` as fractions.
    pub open spec fn le(self, o: LinePos) -> bool {
        self.num * o.den <= o.num * self.den
    }

    /// `self < o` as fractions.
    pub open spec fn lt(self, o: LinePos) -> bool {
        self.num * o.den < o.num * self.den
    }

    /// The same fraction.
    pub open spec fn same_place(self, o: LinePos) -> bool {
        self.num * o.den == o.num * self.den
    }

    /// The pixel at which the line falls on an axis of `extent` pixels:
    /// `floor(extent * num / den)`.
    pub open spec fn pixel(self, extent: nat) -> nat {
        ((extent * self.num) / (self.den as int)) as nat
    }

    /// The position `num / den`, or `None` when that is not a fraction in `[0, 1]`.
    pub fn from_fraction(num: usize, den: usize) -> (r: Option<LinePos>)
        ensures
            r is Some <==> (den > 0 && num <= den),
            r is Some ==> r->Some_0 == (LinePos { num, den }),
    {
        if den > 0 && num <= den {
            Some(LinePos { num, den })
        } else {
            None
        }
    }

    /// Whether `self` lies strictly before `other`.
    pub fn precedes(&self, other: &LinePos) -> (r: bool)
        ensures
            r == self.lt(*other),
    {
        proof {
            lemma_product_fits(self.num, other.den);
            lemma_product_fits(other.num, self.den);
        }
        (self.num as u128) * (other.den as u128) < (other.num as u128) * (self.den as u128)
    }

    /// Whether `self` lies at or before `other`.
    pub fn at_or_before(&self, other: &LinePos) -> (r: bool)
        ensures
            r == self.le(*other),
    {
        proof {
            lemma_product_fits(self.num, other.den);
            lemma_product_fits(other.num, self.den);
        }
        (self.num as u128) * (other.den as u128) <= (other.num as u128) * (self.den as u128)
    }

    /// The pixel at which this line falls on an axis of `extent` pixels.
    pub fn pixel_of(&self, extent: u32) -> (r: u32)
        requires
            self.wf(),
        ensures
            r == self.pixel(extent as nat),
            r <= extent,
    {
        proof {
            lemma_product_fits(extent as usize, self.num);
            lemma_pixel_bounded(*self, extent as nat);
        }
        let p: u128 = (extent as u128) * (self.num as u128) / (self.den as u128);
        p as u32
    }
}

proof fn lemma_product_fits(a: usize, b: usize)
    ensures
        (a as int) * (b as int) <= u128::MAX,
{
    assert(a as int <= u64::MAX as int);
    assert(b as int <= u64::MAX as int);
    assert((a as int) * (b as int) <= (u64::MAX as int) * (u64::MAX as int)) by (nonlinear_arith)
        requires
            0 <= a as int <= u64::MAX as int,
            0 <= b as int <= u64::MAX as int,
    ;
}

/// A well-formed line falls inside the axis.
pub proof fn lemma_pixel_bounded(p: LinePos, extent: nat)
    requires
        p.wf(),
    ensures
        p.pixel(extent) <= extent,
{
    let n = p.num as int;
    let d = p.den as int;
    let e = extent as int;
    assert(e * n <= e * d) by (nonlinear_arith)
        requires
            0 <= n <= d,
            0 <= e,
    ;
    assert((e * n) / d <= e) by (nonlinear_arith)
        requires
            0 <= e * n <= e * d,
            0 < d,
    ;
}

/// Order by value is transitive.
pub proof fn lemma_le_trans(a: LinePos, b: LinePos, c: LinePos)
    requires
        a.wf(),
        b.wf(),
        c.wf(),
        a.le(b),
        b.le(c),
    ensures
        a.le(c),
{
    let (an, ad, bn, bd, cn, cd) = (
        a.num as int,
        a.den as int,
        b.num as int,
        b.den as int,
        c.num as int,
        c.den as int,
    );
    assert(an * cd <= cn * ad) by (nonlinear_arith)
        requires
            an >= 0,
            bn >= 0,
            cn >= 0,
            ad > 0,
            bd > 0,
            cd > 0,
            an * bd <= bn * ad,
            bn * cd <= cn * bd,
    ;
}

/// `a <= b < c` gives `a < c`; `a < b <= c` gives `a < c`.
pub proof fn lemma_lt_trans(a: LinePos, b: LinePos, c: LinePos)
    requires
        a.wf(),
        b.wf(),
        c.wf(),
        (a.le(b) && b.lt(c)) || (a.lt(b) && b.le(c)),
    ensures
        a.lt(c),
{
    let (an, ad, bn, bd, cn, cd) = (
        a.num as int,
        a.den as int,
        b.num as int,
        b.den as int,
        c.num as int,
        c.den as int,
    );
    if a.le(b) && b.lt(c) {
        assert(an * cd < cn * ad) by (nonlinear_arith)
            requires
                an >= 0,
                bn >= 0,
                cn >= 0,
                ad > 0,
                bd > 0,
                cd > 0,
                an * bd <= bn * ad,
                bn * cd < cn * bd,
        ;
    } else {
        assert(an * cd < cn * ad) by (nonlinear_arith)
            requires
                an >= 0,
                bn >= 0,
                cn >= 0,
                ad > 0,
                bd > 0,
                cd > 0,
                an * bd < bn * ad,
                bn * cd <= cn * bd,
        ;
    }
}

/// Lines in order give boundaries in order.
pub proof fn lemma_pixel_monotone(a: LinePos, b: LinePos, extent: nat)
    requires
        a.wf(),
        b.wf(),
        a.le(b),
    ensures
        a.pixel(extent) <= b.pixel(extent),
{
    let (an, ad, bn, bd) = (a.num as int, a.den as int, b.num as int, b.den as int);
    let e = extent as int;
    let f = (e * an) / ad;
    assert(f * ad <= e * an) by (nonlinear_arith)
        requires
            ad > 0,
            e * an >= 0,
            f == (e * an) / ad,
    ;
    assert(f * bd <= e * bn) by (nonlinear_arith)
        requires
            ad > 0,
            bd > 0,
            e >= 0,
            an * bd <= bn * ad,
            f * ad <= e * an,
    ;
    assert(f <= (e * bn) / bd) by (nonlinear_arith)
        requires
            bd > 0,
            f * bd <= e * bn,
    ;
}

} // verus!
