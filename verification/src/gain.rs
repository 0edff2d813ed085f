//! Exact scalar gain, kept as a rational so that volume scalings
//! compose multiplicatively without rounding.

use vstd::prelude::*;

verus! {

/// An amplitude multiplier `num / den`. A gain with `den == 0` stands
/// for a non-finite value and one with `num < 0` for a negative value;
/// both are rejected wherever a gain is applied.
#[derive(Clone, Copy, Debug, PartialEq, Eq, Structural)]
pub struct Gain {
    pub num: i64,
    pub den: u64,
}

impl Gain {
    /// A gain is applicable only when it is finite and non-negative.
    pub open spec fn is_valid(self) -> bool {
        self.den != 0 && self.num >= 0
    }

    /// Two gains scale amplitudes identically when they are equal as
    /// rationals.
    pub open spec fn equiv(self, other: Gain) -> bool {
        self.num * other.den == other.num * self.den
    }

    pub fn new(num: i64, den: u64) -> (r: Gain)
        ensures
            r.num == num,
            r.den == den,
    {
        Gain { num, den }
    }

    /// The neutral gain: scaling by it changes nothing.
    pub fn one() -> (r: Gain)
        ensures
            r.num == 1,
            r.den == 1,
            r.is_valid(),
    {
        Gain { num: 1, den: 1 }
    }

    /// Full silence.
    pub fn zero() -> (r: Gain)
        ensures
            r.num == 0,
            r.den == 1,
            r.is_valid(),
    {
        Gain { num: 0, den: 1 }
    }

    pub fn is_finite(&self) -> (r: bool)
        ensures
            r == (self.den != 0),
    {
        self.den != 0
    }

    pub fn valid(&self) -> (r: bool)
        ensures
            r == self.is_valid(),
    {
        self.den != 0 && self.num >= 0
    }

    /// Exact product of two gains.
    pub fn mul(&self, other: &Gain) -> (r: Gain)
        requires
            self.num * other.num <= i64::MAX,
            self.num * other.num >= i64::MIN,
            self.den * other.den <= u64::MAX,
        ensures
            r.num == self.num * other.num,
            r.den == self.den * other.den,
    {
        Gain { num: self.num * other.num, den: self.den * other.den }
    }
}

/// Law: starting from base gain `g`, scaling by `v1` and then by `v2`
/// (two `set_volume` calls, each of which multiplies numerators and
/// denominators exactly) yields the very same gain as scaling once by
/// the product `v1 * v2`, for positive `v1`, `v2`.
pub proof fn lemma_volume_scaling_composes(g: Gain, v1: Gain, v2: Gain)
    requires
        g.is_valid(),
        v1.is_valid(),
        v1.num > 0,
        v2.is_valid(),
        v2.num > 0,
    ensures
        (g.num * v1.num) * v2.num == g.num * (v1.num * v2.num),
        (g.den * v1.den) * v2.den == g.den * (v1.den * v2.den),
{
    assert((g.num * v1.num) * v2.num == g.num * (v1.num * v2.num)) by (nonlinear_arith);
    assert((g.den * v1.den) * v2.den == g.den * (v1.den * v2.den)) by (nonlinear_arith);
}

} // verus!
