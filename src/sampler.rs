use rand::rngs::StdRng;
use rand::Rng;
use rand::SeedableRng;
use vstd::prelude::*;

use crate::date::{CalendarDate, DAYS_IN_YEAR, all_valid, date_at_offset, date_from_offset};

verus! {

/// rand's standard seedable generator, carried as an opaque value.
#[verifier::external_type_specification]
#[verifier::external_body]
pub struct ExStdRng(StdRng);

/// Relies on rand's `SeedableRng::seed_from_u64` for `StdRng`: a generator
/// whose whole sequence of draws is fixed by the seed.
#[verifier::external_body]
fn seeded_generator(seed: u64) -> StdRng {
    StdRng::seed_from_u64(seed)
}

/// Relies on rand's `Rng::gen_range` on the half-open range `0..bound`,
/// which yields a value of that range and panics only where it is empty.
#[verifier::external_body]
fn draw_below(rng: &mut StdRng, bound: u32) -> (r: u32)
    requires
        bound > 0,
    ensures
        r < bound,
{
    rng.gen_range(0..bound)
}

/// Draws birthdays uniformly from the days of a common year, from a
/// generator of its own.
pub struct Sampler {
    rng: StdRng,
}

impl Sampler {
    /// A sampler whose draws are determined by `seed`.
    pub fn new(seed: u64) -> (r: Sampler) {
        Sampler { rng: seeded_generator(seed) }
    }

    /// One birthday: a day of the year drawn uniformly from its 365 days.
    pub fn sample_date(&mut self) -> (r: CalendarDate)
        ensures
            r.is_valid(),
            exists|o: int| 0 <= o < DAYS_IN_YEAR && r == date_at_offset(o),
    {
        let offset = draw_below(&mut self.rng, DAYS_IN_YEAR);
        date_from_offset(offset)
    }

    /// A group of `n` birthdays, in the order drawn, repeats kept.
    pub fn sample_group(&mut self, n: usize) -> (r: Vec<CalendarDate>)
        ensures
            r@.len() == n,
            all_valid(r@),
    {
        let mut group: Vec<CalendarDate> = Vec::with_capacity(n);
        let mut i: usize = 0;
        while i < n
            invariant
                i <= n,
                group@.len() == i,
                all_valid(group@),
            decreases n - i,
        {
            let d = self.sample_date();
            group.push(d);
            i = i + 1;
        }
        group
    }
}

} // verus!
