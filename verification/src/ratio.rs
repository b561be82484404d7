//! Fractions of a length, in millionths.

use vstd::prelude::*;

verus! {

/// One, in millionths.
pub const RATIO_ONE: i32 = 1_000_000;

/// A fraction, counted in millionths: `Ratio(250_000)` is a quarter.
#[derive(Clone, Copy, Debug, PartialEq, Eq, Structural)]
pub struct Ratio(pub i32);

/// Integer division that rounds toward zero.
pub open spec fn toward_zero(a: int, d: int) -> int {
    if a >= 0 {
        a / d
    } else {
        -((-a) / d)
    }
}

/// Integer division that rounds to the nearest integer, halves away from zero.
pub open spec fn nearest(a: int, d: int) -> int {
    if a >= 0 {
        (a + d / 2) / d
    } else {
        -((-a + d / 2) / d)
    }
}

/// `v` held to the range of an `i32`.
pub open spec fn saturated(v: int) -> int {
    if v > i32::MAX {
        i32::MAX as int
    } else if v < i32::MIN {
        i32::MIN as int
    } else {
        v
    }
}

/// `v` held to the range of an `i32`.
pub fn saturate(v: i64) -> (r: i32)
    ensures
        r == saturated(v as int),
{
    if v > 0x7fff_ffff {
        0x7fff_ffff
    } else if v < -0x8000_0000 {
        -0x8000_0000
    } else {
        v as i32
    }
}

impl Ratio {
    /// The fraction as millionths.
    pub open spec fn ppm(self) -> int {
        self.0 as int
    }

    /// `length` times the fraction, rounded toward zero.
    pub open spec fn spec_of(self, length: int) -> int {
        toward_zero(self.ppm() * length, RATIO_ONE as int)
    }

    /// `length` times the fraction, rounded to the nearest integer.
    pub open spec fn spec_of_rounded(self, length: int) -> int {
        nearest(self.ppm() * length, RATIO_ONE as int)
    }

    /// The fraction that `part` is of `whole`, rounded toward zero and held
    /// to what a `Ratio` can express.
    pub open spec fn spec_between(part: int, whole: int) -> int {
        saturated(toward_zero(part * RATIO_ONE, whole))
    }

    /// `length` times the fraction, rounded toward zero.
    pub fn of(self, length: i32) -> (r: i32)
        ensures
            r == saturated(self.spec_of(length as int)),
    {
        proof {
            lemma_product_bounds(self.0 as int, length as int);
        }
        let product: i64 = self.0 as i64 * length as i64;
        saturate(product / 1_000_000)
    }

    /// `length` times the fraction, rounded to the nearest integer, halves
    /// away from zero.
    pub fn of_rounded(self, length: i32) -> (r: i32)
        ensures
            r == saturated(self.spec_of_rounded(length as int)),
    {
        proof {
            lemma_product_bounds(self.0 as int, length as int);
        }
        let product: i64 = self.0 as i64 * length as i64;
        if product >= 0 {
            saturate((product + 500_000) / 1_000_000)
        } else {
            saturate(-((-product + 500_000) / 1_000_000))
        }
    }

    /// The fraction that `part` is of `whole`.
    pub fn between(part: i32, whole: i32) -> (r: Ratio)
        requires
            whole > 0,
        ensures
            r.ppm() == Ratio::spec_between(part as int, whole as int),
    {
        proof {
            lemma_product_bounds(part as int, RATIO_ONE as int);
        }
        let scaled: i64 = part as i64 * 1_000_000;
        Ratio(saturate(scaled / whole as i64))
    }
}

proof fn lemma_product_bounds(a: int, b: int)
    requires
        -0x8000_0000 <= a <= 0x7fff_ffff,
        -0x8000_0000 <= b <= 0x7fff_ffff,
    ensures
        -0x4000_0000_0000_0000 <= a * b <= 0x4000_0000_0000_0000,
{
    assert(-0x4000_0000_0000_0000 <= a * b <= 0x4000_0000_0000_0000) by (nonlinear_arith)
        requires
            -0x8000_0000 <= a <= 0x7fff_ffff,
            -0x8000_0000 <= b <= 0x7fff_ffff,
    ;
}

} // verus!
