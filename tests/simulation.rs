use std::cell::RefCell;

use birthday_paradox::collision::{find_one_collision, has_collision};
use birthday_paradox::date::{date_from_offset, CalendarDate};
use birthday_paradox::engine::{AggregateResult, BirthdayParadox, SimError};
use birthday_paradox::sampler::Sampler;

fn date(month: u8, day: u8) -> CalendarDate {
    CalendarDate { month, day }
}

fn is_valid(d: CalendarDate) -> bool {
    let lengths = [31u8, 28, 31, 30, 31, 30, 31, 31, 30, 31, 30, 31];
    d.month >= 1 && d.month <= 12 && d.day >= 1 && d.day <= lengths[(d.month - 1) as usize]
}

fn percent(r: &AggregateResult) -> f64 {
    r.collision_count as f64 / r.trials_run as f64 * 100.0
}

#[test]
fn repeated_date_is_found() {
    let group = vec![date(3, 5), date(7, 19), date(3, 5)];
    assert!(has_collision(&group));
    assert_eq!(find_one_collision(&group), Some(date(3, 5)));
}

#[test]
fn distinct_dates_have_no_collision() {
    let group = vec![date(1, 1), date(1, 2), date(1, 3)];
    assert!(!has_collision(&group));
    assert_eq!(find_one_collision(&group), None);
}

#[test]
fn empty_group_has_no_collision() {
    let group: Vec<CalendarDate> = Vec::new();
    assert!(!has_collision(&group));
    assert_eq!(find_one_collision(&group), None);
}

#[test]
fn first_completed_repeat_wins() {
    let a = date(2, 14);
    let b = date(10, 31);
    assert_eq!(find_one_collision(&[a, b, b, a]), Some(b));
    assert_eq!(find_one_collision(&[a, b, a, b]), Some(a));
    assert_eq!(find_one_collision(&[b, a, a]), Some(a));
}

#[test]
fn same_day_in_other_month_is_no_collision() {
    let group = vec![date(1, 5), date(2, 5), date(5, 1)];
    assert!(!has_collision(&group));
}

#[test]
fn offsets_map_to_days_of_a_common_year() {
    assert_eq!(date_from_offset(0), date(1, 1));
    assert_eq!(date_from_offset(30), date(1, 31));
    assert_eq!(date_from_offset(31), date(2, 1));
    assert_eq!(date_from_offset(58), date(2, 28));
    assert_eq!(date_from_offset(59), date(3, 1));
    assert_eq!(date_from_offset(199), date(7, 19));
    assert_eq!(date_from_offset(364), date(12, 31));
}

#[test]
fn every_offset_gives_a_different_valid_date() {
    let mut seen: Vec<CalendarDate> = Vec::new();
    for o in 0..365u32 {
        let d = date_from_offset(o);
        assert!(is_valid(d));
        assert!(!seen.contains(&d));
        seen.push(d);
    }
}

#[test]
fn sampled_group_has_requested_size_and_valid_dates() {
    let mut sampler = Sampler::new(7);
    for n in [0usize, 1, 23, 100] {
        let group = sampler.sample_group(n);
        assert_eq!(group.len(), n);
        assert!(group.iter().all(|d| is_valid(*d)));
    }
}

#[test]
fn more_people_than_days_always_collide() {
    let mut sampler = Sampler::new(11);
    for n in [366usize, 367, 500] {
        let group = sampler.sample_group(n);
        assert!(has_collision(&group));
        let d = find_one_collision(&group).unwrap();
        assert!(group.iter().filter(|x| **x == d).count() >= 2);
    }
}

#[test]
fn detectors_agree_on_sampled_groups() {
    let mut sampler = Sampler::new(3);
    for _ in 0..200 {
        let group = sampler.sample_group(23);
        let found = find_one_collision(&group);
        assert_eq!(found.is_some(), has_collision(&group));
        if let Some(d) = found {
            assert!(group.iter().filter(|x| **x == d).count() >= 2);
        }
    }
}

#[test]
fn detection_is_repeatable() {
    let mut sampler = Sampler::new(5);
    for _ in 0..50 {
        let group = sampler.sample_group(30);
        assert_eq!(has_collision(&group), has_collision(&group));
    }
}

#[test]
fn preview_reports_first_collision() {
    let mut engine = BirthdayParadox::new(40, 99);
    let (group, found) = engine.preview();
    assert_eq!(group.len(), 40);
    assert_eq!(found, find_one_collision(&group));
}

#[test]
fn same_seed_gives_same_groups() {
    let mut a = BirthdayParadox::new(23, 2024);
    let mut b = BirthdayParadox::new(23, 2024);
    assert_eq!(a.generate_birthdays(), b.generate_birthdays());
    assert_eq!(a.number_of_birthdays(), 23);
}

#[test]
fn twenty_three_people_collide_about_half_the_time() {
    let mut engine = BirthdayParadox::new(23, 42);
    let r = engine.run_simulations(100_000, 10_000, |_i: usize| {}).unwrap();
    assert_eq!(r.trials_run, 100_000);
    let p = percent(&r);
    assert!(p > 45.7 && p < 55.7, "probability {}", p);
}

#[test]
fn single_trial_is_all_or_nothing() {
    for seed in 0..20u64 {
        let mut engine = BirthdayParadox::new(23, seed);
        let r = engine.run_simulations(1, 10_000, |_i: usize| {}).unwrap();
        assert_eq!(r.trials_run, 1);
        assert!(r.collision_count == 0 || r.collision_count == 1);
        let p = percent(&r);
        assert!(p == 0.0 || p == 100.0);
    }
}

#[test]
fn large_groups_collide_in_every_trial() {
    let mut engine = BirthdayParadox::new(367, 8);
    let r = engine.run_simulations(50, 10, |_i: usize| {}).unwrap();
    assert_eq!(r.collision_count, 50);
    assert_eq!(percent(&r), 100.0);
}

#[test]
fn single_person_never_collides() {
    let mut engine = BirthdayParadox::new(1, 8);
    let r = engine.run_simulations(100, 10, |_i: usize| {}).unwrap();
    assert_eq!(r.collision_count, 0);
}

#[test]
fn zero_trials_is_refused() {
    let mut engine = BirthdayParadox::new(23, 1);
    assert_eq!(
        engine.run_simulations(0, 10_000, |_i: usize| {}),
        Err(SimError::InvalidTrialCount)
    );
}

#[test]
fn empty_group_is_refused() {
    let mut engine = BirthdayParadox::new(0, 1);
    assert_eq!(
        engine.run_simulations(10, 10_000, |_i: usize| {}),
        Err(SimError::InvalidGroupSize)
    );
    assert_eq!(
        engine.run_simulations(0, 10_000, |_i: usize| {}),
        Err(SimError::InvalidGroupSize)
    );
}

#[test]
fn progress_is_reported_at_each_interval() {
    let calls = RefCell::new(Vec::new());
    let mut engine = BirthdayParadox::new(5, 1);
    let r = engine
        .run_simulations(25, 10, |i: usize| calls.borrow_mut().push(i))
        .unwrap();
    assert_eq!(r.trials_run, 25);
    assert_eq!(*calls.borrow(), vec![0, 10, 20]);
}

#[test]
fn tally_counts_trials_and_collisions() {
    let mut r = AggregateResult::empty();
    r.tally(true);
    r.tally(false);
    r.tally(true);
    assert_eq!(r, AggregateResult { trials_run: 3, collision_count: 2 });
}

#[test]
fn collision_means_fewer_distinct_dates() {
    let mut sampler = Sampler::new(17);
    for _ in 0..100 {
        let group = sampler.sample_group(25);
        let distinct: std::collections::HashSet<CalendarDate> = group.iter().copied().collect();
        assert_eq!(has_collision(&group), distinct.len() < group.len());
    }
}
