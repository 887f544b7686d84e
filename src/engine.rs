use vstd::prelude::*;

use crate::collision::{
    find_one_collision,
    first_repeat,
    has_collision,
    has_repeat,
    lemma_more_people_than_days,
};
use crate::date::{CalendarDate, DAYS_IN_YEAR, all_valid};
use crate::sampler::Sampler;

verus! {

/// Why a simulation was refused.
#[derive(Clone, Copy, Debug, PartialEq, Eq, Structural)]
pub enum SimError {
    /// The group has no people.
    InvalidGroupSize,
    /// No trial was asked for, so no probability can be given.
    InvalidTrialCount,
}

/// The outcome of a run: how many trials were made and in how many of them
/// two people shared a birthday. The empirical probability, in percent, is
/// `100 * collision_count / trials_run`.
#[derive(Clone, Copy, Debug, PartialEq, Eq, Structural)]
pub struct AggregateResult {
    pub trials_run: usize,
    pub collision_count: usize,
}

/// How many of the groups have a collision.
pub open spec fn count_with_repeat(groups: Seq<Seq<CalendarDate>>) -> nat
    decreases groups.len(),
{
    if groups.len() == 0 {
        0
    } else {
        count_with_repeat(groups.drop_last()) + if has_repeat(groups.last()) {
            1nat
        } else {
            0nat
        }
    }
}

/// Each group has `n` people, each with a valid birthday.
pub open spec fn groups_of(groups: Seq<Seq<CalendarDate>>, n: nat) -> bool {
    forall|k: int|
        0 <= k < groups.len() ==> (#[trigger] groups[k]).len() == n && all_valid(groups[k])
}

/// A run of one trial counts one collision exactly when its one group has
/// a collision, and none otherwise.
pub proof fn lemma_single_trial(groups: Seq<Seq<CalendarDate>>)
    requires
        groups.len() == 1,
    ensures
        count_with_repeat(groups) == (if has_repeat(groups[0]) { 1nat } else { 0nat }),
{
    assert(count_with_repeat(groups.drop_last()) == 0);
    assert(groups.last() == groups[0]);
}

/// Where groups have more people than the year has days, every trial has a
/// collision, and the count equals the number of trials.
pub proof fn lemma_every_large_group_collides(groups: Seq<Seq<CalendarDate>>, n: nat)
    requires
        groups_of(groups, n),
        n > DAYS_IN_YEAR,
    ensures
        count_with_repeat(groups) == groups.len(),
    decreases groups.len(),
{
    if groups.len() > 0 {
        let p = groups.drop_last();
        assert(groups_of(p, n)) by {
            assert forall|k: int| 0 <= k < p.len() implies (#[trigger] p[k]).len() == n
                && all_valid(p[k]) by {
                assert(p[k] == groups[k]);
            }
        }
        lemma_every_large_group_collides(p, n);
        lemma_more_people_than_days(groups.last());
    }
}

impl AggregateResult {
    /// No trial made yet.
    pub fn empty() -> (r: AggregateResult)
        ensures
            r.trials_run == 0,
            r.collision_count == 0,
    {
        AggregateResult { trials_run: 0, collision_count: 0 }
    }

    /// Counts one more trial, and one more collision where it had one.
    pub fn tally(&mut self, collided: bool)
        requires
            old(self).trials_run < usize::MAX,
            old(self).collision_count <= old(self).trials_run,
        ensures
            final(self).trials_run == old(self).trials_run + 1,
            final(self).collision_count == old(self).collision_count + if collided {
                1int
            } else {
                0int
            },
            final(self).collision_count <= final(self).trials_run,
    {
        self.trials_run = self.trials_run + 1;
        if collided {
            self.collision_count = self.collision_count + 1;
        }
    }
}

/// The simulation engine: a group size fixed at construction, and a sampler
/// of its own.
pub struct BirthdayParadox {
    number_of_birthdays: usize,
    sampler: Sampler,
}

impl BirthdayParadox {
    /// The number of people in each simulated group.
    pub closed spec fn group_size(&self) -> nat {
        self.number_of_birthdays as nat
    }

    /// An engine for groups of `number_of_birthdays` people, drawing from a
    /// generator seeded with `seed`. Nothing is drawn yet.
    pub fn new(number_of_birthdays: usize, seed: u64) -> (r: BirthdayParadox)
        ensures
            r.group_size() == number_of_birthdays,
    {
        BirthdayParadox { number_of_birthdays, sampler: Sampler::new(seed) }
    }

    /// The number of people in each simulated group.
    pub fn number_of_birthdays(&self) -> (r: usize)
        ensures
            r == self.group_size(),
    {
        self.number_of_birthdays
    }

    /// One fresh group of random birthdays.
    pub fn generate_birthdays(&mut self) -> (r: Vec<CalendarDate>)
        ensures
            final(self).group_size() == old(self).group_size(),
            r@.len() == old(self).group_size(),
            all_valid(r@),
    {
        self.sampler.sample_group(self.number_of_birthdays)
    }

    /// One illustrative group, with the date of its first collision if any.
    pub fn preview(&mut self) -> (r: (Vec<CalendarDate>, Option<CalendarDate>))
        ensures
            final(self).group_size() == old(self).group_size(),
            r.0@.len() == old(self).group_size(),
            all_valid(r.0@),
            r.1 == first_repeat(r.0@),
    {
        let group = self.generate_birthdays();
        let found = find_one_collision(group.as_slice());
        (group, found)
    }

    /// One trial: draws a group and tells whether two of its people share a
    /// birthday.
    pub fn run_simulation(&mut self) -> (r: bool)
        ensures
            final(self).group_size() == old(self).group_size(),
            exists|g: Seq<CalendarDate>|
                g.len() == old(self).group_size() && all_valid(g) && r == has_repeat(g),
    {
        let group = self.generate_birthdays();
        has_collision(group.as_slice())
    }

    /// Runs `times` independent trials and counts those with a collision.
    /// `on_progress` is called with the trial index before each trial whose
    /// index is a multiple of `progress_interval`.
    /// A group of no people and a run of no trials are refused, the group
    /// size first.
    pub fn run_simulations<F: Fn(usize)>(
        &mut self,
        times: usize,
        progress_interval: usize,
        on_progress: F,
    ) -> (r: Result<AggregateResult, SimError>)
        requires
            progress_interval >= 1,
            forall|i: usize| on_progress.requires((i,)),
        ensures
            final(self).group_size() == old(self).group_size(),
            old(self).group_size() == 0 ==> r == Err::<AggregateResult, SimError>(
                SimError::InvalidGroupSize,
            ),
            old(self).group_size() >= 1 && times == 0 ==> r == Err::<AggregateResult, SimError>(
                SimError::InvalidTrialCount,
            ),
            old(self).group_size() >= 1 && times >= 1 ==> r is Ok,
            r matches Ok(res) ==> {
                &&& res.trials_run == times
                &&& res.collision_count <= res.trials_run
                &&& exists|groups: Seq<Seq<CalendarDate>>|
                    groups.len() == times && groups_of(groups, old(self).group_size())
                        && res.collision_count == count_with_repeat(groups)
            },
    {
        if self.number_of_birthdays == 0 {
            return Err(SimError::InvalidGroupSize);
        }
        if times == 0 {
            return Err(SimError::InvalidTrialCount);
        }
        let ghost n = self.group_size();
        let ghost mut groups: Seq<Seq<CalendarDate>> = Seq::empty();
        let mut result = AggregateResult::empty();
        let mut i: usize = 0;
        while i < times
            invariant
                self.group_size() == n,
                forall|j: usize| on_progress.requires((j,)),
                progress_interval >= 1,
                i <= times,
                result.trials_run == i,
                groups.len() == i,
                groups_of(groups, n),
                result.collision_count == count_with_repeat(groups),
                result.collision_count <= result.trials_run,
            decreases times - i,
        {
            if i % progress_interval == 0 {
                on_progress(i);
            }
            let collided = self.run_simulation();
            proof {
                let g = choose|g: Seq<CalendarDate>|
                    g.len() == n && all_valid(g) && collided == has_repeat(g);
                let prev = groups;
                groups = prev.push(g);
                assert(groups.drop_last() =~= prev);
            }
            result.tally(collided);
            i = i + 1;
        }
        Ok(result)
    }
}

} // verus!
