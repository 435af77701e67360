//! Fixed-point numbers with nine decimal places.

use vstd::prelude::*;

verus! {

/// Units in one whole: a [`Fixed`] counts billionths.
pub const SCALE: i64 = 1_000_000_000;

/// Half of [`SCALE`]: the distance at which rounding turns upwards.
pub const HALF: i64 = 500_000_000;

/// The square of [`HALF`]: no squared rounding distance exceeds it.
pub const HALF_SQUARED: u128 = 250_000_000_000_000_000;

/// A number held as a signed count of billionths: `units / SCALE`.
#[derive(Clone, Copy, Debug, PartialEq, Eq, Structural)]
pub struct Fixed {
    /// How many billionths the number holds.
    pub units: i64,
}

/// `a / b` rounded toward zero, for a positive `b`.
pub open spec fn trunc_div(a: int, b: int) -> int {
    if a >= 0 {
        a / b
    } else {
        -((-a) / b)
    }
}

/// The whole number nearest to `units / SCALE`; a tie goes away from zero.
pub open spec fn round_units(units: int) -> int {
    if units >= 0 {
        (units + HALF) / (SCALE as int)
    } else {
        -((-units + HALF) / (SCALE as int))
    }
}

/// What rounding to the nearest whole number leaves behind, in units.
pub open spec fn residual(units: int) -> int {
    units - round_units(units) * SCALE
}

/// Rounding moves a number by at most one half.
pub proof fn lemma_residual_bound(units: int)
    ensures
        -HALF <= residual(units) <= HALF,
        0 <= residual(units) * residual(units) <= HALF_SQUARED,
{
    let r = residual(units);
    assert(0 <= r * r <= 250_000_000_000_000_000) by (nonlinear_arith)
        requires
            -500_000_000 <= r <= 500_000_000,
    ;
}

/// `r` is the square root of `n`, rounded down.
pub open spec fn is_floor_sqrt(r: int, n: int) -> bool {
    0 <= r && r * r <= n < (r + 1) * (r + 1)
}

/// The square root of `n`, rounded down.
pub fn floor_sqrt(n: u64) -> (r: u64)
    ensures
        is_floor_sqrt(r as int, n as int),
        r <= 4_294_967_295,
{
    let mut low: u64 = 0;
    let mut high: u64 = 4_294_967_296;
    while high - low > 1
        invariant
            low < high <= 4_294_967_296,
            low * low <= n < high * high,
        decreases high - low,
    {
        let middle: u64 = low + (high - low) / 2;
        assert(middle * middle <= 4_294_967_295 * 4_294_967_295) by (nonlinear_arith)
            requires
                0 <= middle <= 4_294_967_295,
        ;
        if middle * middle <= n {
            low = middle;
        } else {
            high = middle;
        }
    }
    low
}

impl Fixed {
    /// The number zero.
    pub fn zero() -> (r: Fixed)
        ensures
            r.units == 0,
    {
        Fixed { units: 0 }
    }

    /// The number one.
    pub fn one() -> (r: Fixed)
        ensures
            r.units == SCALE,
    {
        Fixed { units: SCALE }
    }

    /// The nearest whole number, a tie going away from zero.
    pub fn round(self) -> (r: i64)
        ensures
            r == round_units(self.units as int),
    {
        if self.units >= 0 {
            let shifted: u64 = self.units as u64 + HALF as u64;
            (shifted / (SCALE as u64)) as i64
        } else {
            let magnitude: u64 = (-(self.units as i128)) as u64;
            let shifted: u64 = magnitude + HALF as u64;
            -((shifted / (SCALE as u64)) as i64)
        }
    }
}

} // verus!
