//! Spawn rates: "with some probability, produce a count drawn from a
//! range, rounded stochastically".
use vstd::prelude::*;
use vstd::arithmetic::div_mod::lemma_div_is_ordered;
use crate::fixed::{Fixed, FIXED_SCALE};
use crate::rng::rand_below;

verus! {

/// A harvest spawn rate: a guard chance in [0, 1] and a count range.
/// With probability `guard` the yield count is drawn from `[lo, hi)`;
/// the fractional part of the draw is itself the probability of
/// rounding the count up.
#[derive(Debug, Clone, Copy, PartialEq)]
pub struct SpawnRate(pub Fixed, pub (Fixed, Fixed));

/// The mathematical value of a spawn rate, free of machine bounds.
pub ghost struct SpawnRateModel {
    pub guard: int,
    pub lo: int,
    pub hi: int,
}

impl SpawnRate {
    /// The mathematical value of this spawn rate.
    pub open spec fn model(self) -> SpawnRateModel {
        SpawnRateModel { guard: self.0.0 as int, lo: self.1.0.0 as int, hi: self.1.1.0 as int }
    }
}

/// A spawn rate scaled by a yield-size multiplier: the guard is capped
/// at certainty, the count range is scaled through.
pub open spec fn rescaled_rate(r: SpawnRateModel, mult: int) -> SpawnRateModel {
    SpawnRateModel {
        guard: if (r.guard * mult) / (FIXED_SCALE as int) <= FIXED_SCALE {
            (r.guard * mult) / (FIXED_SCALE as int)
        } else {
            FIXED_SCALE as int
        },
        lo: (r.lo * mult) / (FIXED_SCALE as int),
        hi: (r.hi * mult) / (FIXED_SCALE as int),
    }
}

/// Whether rescaling `r` by `mult` stays within the machine integers.
pub open spec fn rescale_fits(r: SpawnRateModel, mult: int) -> bool {
    &&& (r.guard * mult) / (FIXED_SCALE as int) <= u64::MAX
    &&& (r.lo * mult) / (FIXED_SCALE as int) <= u64::MAX
    &&& (r.hi * mult) / (FIXED_SCALE as int) <= u64::MAX
}

/// Scale this spawn rate by a yield-size multiplier.
impl SpawnRate {
    pub fn rescale(self, mult: Fixed) -> (r: SpawnRate)
        requires
            rescale_fits(self.model(), mult.0 as int),
        ensures
            r.model() == rescaled_rate(self.model(), mult.0 as int),
    {
        let SpawnRate(guard, (lo, hi)) = self;
        SpawnRate(guard.mul(mult).capped_at_one(), (lo.mul(mult), hi.mul(mult)))
    }
}

/// Whether `chance` is a point the count draw can land on: a point in
/// `[lo, hi)`, or exactly `lo` when the range has no width.
pub open spec fn chance_in_range(rate: SpawnRateModel, chance: int) -> bool {
    if rate.lo < rate.hi {
        rate.lo <= chance < rate.hi
    } else {
        chance == rate.lo
    }
}

/// The yield count three uniform draws determine. The guard draw
/// decides whether anything spawns at all; the whole part of the chance
/// point is the base count; the sub-unit remainder is itself the
/// probability that the extra draw rounds the count up — fractional
/// granularity without fractional counts.
pub open spec fn count_from_draws_spec(
    rate: SpawnRateModel,
    guard_draw: int,
    chance: int,
    extra_draw: int,
) -> int {
    if guard_draw >= rate.guard {
        0
    } else {
        chance / (FIXED_SCALE as int) + if extra_draw < chance % (FIXED_SCALE as int) {
            1int
        } else {
            0int
        }
    }
}

/// Whether `n` is a count some triple of draws can produce for `rate`.
pub open spec fn spawn_count_possible(rate: SpawnRateModel, n: int) -> bool {
    exists|g: int, c: int, e: int|
        {
            &&& 0 <= g < FIXED_SCALE
            &&& chance_in_range(rate, c)
            &&& 0 <= e < FIXED_SCALE
            &&& #[trigger] count_from_draws_spec(rate, g, c, e) == n
        }
}

impl SpawnRate {
    /// The count the given draws determine: the deterministic core of
    /// `gen_count`, verified for every draw.
    pub fn count_from_draws(self, guard_draw: u64, chance: u64, extra_draw: u64) -> (r: usize)
        requires
            chance / FIXED_SCALE + 1 <= usize::MAX,
        ensures
            r == count_from_draws_spec(
                self.model(),
                guard_draw as int,
                chance as int,
                extra_draw as int,
            ),
    {
        if guard_draw >= self.0.0 {
            0
        } else {
            let point = Fixed(chance);
            let base = point.whole();
            let rem = point.frac();
            let extra: usize = if extra_draw < rem {
                1
            } else {
                0
            };
            (base as usize) + extra
        }
    }

    /// Draw a yield count from the thread-local generator: with
    /// probability `guard`, a count from `[lo, hi)`, stochastically
    /// rounded; otherwise zero. A zero-width range with a certain guard
    /// and a whole-unit bound always yields exactly that bound.
    pub fn gen_count(self) -> (r: usize)
        requires
            self.model().lo / (FIXED_SCALE as int) + 1 <= usize::MAX,
            self.model().hi / (FIXED_SCALE as int) + 1 <= usize::MAX,
        ensures
            spawn_count_possible(self.model(), r as int),
            self.model().guard == 0 ==> r == 0,
            (self.model().guard >= FIXED_SCALE && self.model().hi <= self.model().lo
                && self.model().lo % (FIXED_SCALE as int) == 0) ==> r == self.model().lo / (
            FIXED_SCALE as int),
    {
        let guard_draw = rand_below(FIXED_SCALE);
        let SpawnRate(_, (lo, hi)) = self;
        let chance: u64 = if lo.0 < hi.0 {
            lo.0 + rand_below(hi.0 - lo.0)
        } else {
            lo.0
        };
        let extra_draw = rand_below(FIXED_SCALE);
        proof {
            if chance < hi.0 {
                lemma_div_is_ordered(chance as int, hi.0 as int, FIXED_SCALE as int);
            }
            lemma_div_is_ordered(chance as int, lo.0 as int + hi.0 as int, FIXED_SCALE as int);
        }
        let r = self.count_from_draws(guard_draw, chance, extra_draw);
        proof {
            assert(chance_in_range(self.model(), chance as int));
            assert(count_from_draws_spec(
                self.model(),
                guard_draw as int,
                chance as int,
                extra_draw as int,
            ) == r as int);
        }
        r
    }
}

} // verus!
