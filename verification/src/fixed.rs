use vstd::prelude::*;

verus! {

/// Number of steps that make up one whole unit of a `Fixed` value.
pub const FIXED_SCALE: u64 = 1000;

/// A non-negative fixed-point number counted in thousandths of a unit:
/// `Fixed(1000)` is one, `Fixed(2500)` is two and a half. Stat multipliers
/// and spawn chances are stored this way, so composing them is exact
/// integer arithmetic.
#[derive(Clone, Copy, PartialEq, Eq, Structural, Debug)]
pub struct Fixed(pub u64);

impl Fixed {
    /// The fixed-point number representing one.
    pub fn one() -> (r: Fixed)
        ensures
            r.0 == FIXED_SCALE,
    {
        Fixed(FIXED_SCALE)
    }

    /// Mathematical value of multiplying two fixed-point numbers,
    /// truncated down to the scale's granularity.
    pub open spec fn mul_spec(self, other: Fixed) -> int {
        (self.0 * other.0) / (FIXED_SCALE as int)
    }

    /// Truncating fixed-point multiplication.
    pub fn mul(self, other: Fixed) -> (r: Fixed)
        requires
            self.mul_spec(other) <= u64::MAX,
        ensures
            r.0 == self.mul_spec(other),
    {
        let wide: u128 = (self.0 as u128) * (other.0 as u128);
        let shrunk: u128 = wide / (FIXED_SCALE as u128);
        proof {
            assert(wide == self.0 * other.0);
            assert(shrunk == self.mul_spec(other));
        }
        Fixed(shrunk as u64)
    }

    /// The whole-unit part of the value.
    pub fn whole(self) -> (r: u64)
        ensures
            r == self.0 / FIXED_SCALE,
    {
        self.0 / FIXED_SCALE
    }

    /// The sub-unit remainder, always below the scale.
    pub fn frac(self) -> (r: u64)
        ensures
            r == self.0 % FIXED_SCALE,
            r < FIXED_SCALE,
    {
        self.0 % FIXED_SCALE
    }

    /// The smaller of this value and one.
    pub fn capped_at_one(self) -> (r: Fixed)
        ensures
            r.0 == if self.0 <= FIXED_SCALE { self.0 as int } else { FIXED_SCALE as int },
    {
        if self.0 <= FIXED_SCALE {
            self
        } else {
            Fixed(FIXED_SCALE)
        }
    }
}

} // verus!
