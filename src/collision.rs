use std::collections::HashSet;
use vstd::prelude::*;

use crate::date::{
    CalendarDate,
    DAYS_IN_YEAR,
    all_valid,
    lemma_day_index_inverse,
    lemma_day_index_injective,
};
use vstd::set_lib::{lemma_int_range, lemma_len_subset, set_int_range};

verus! {

broadcast use vstd::std_specs::hash::group_hash_axioms;

/// The date that completes the first repeat when `s` is read from left to
/// right: the first element equal to some element before it. `None` when no
/// element repeats.
pub open spec fn first_repeat(s: Seq<CalendarDate>) -> Option<CalendarDate>
    decreases s.len(),
{
    if s.len() == 0 {
        None
    } else {
        let p = s.drop_last();
        match first_repeat(p) {
            Some(d) => Some(d),
            None => if p.contains(s.last()) {
                Some(s.last())
            } else {
                None
            },
        }
    }
}

/// A group has a collision when two of its people share a date.
pub open spec fn has_repeat(s: Seq<CalendarDate>) -> bool {
    !s.no_duplicates()
}

/// `d` stands at two different places of `s`.
pub open spec fn occurs_twice(s: Seq<CalendarDate>, d: CalendarDate) -> bool {
    exists|i: int, j: int| 0 <= i < j < s.len() && s[i] == d && s[j] == d
}

/// An integer that determines a date: month and day side by side.
pub open spec fn key_of(d: CalendarDate) -> u32 {
    (d.month as u32 * 256 + d.day as u32) as u32
}

fn date_key(d: CalendarDate) -> (k: u32)
    ensures
        k == key_of(d),
{
    d.month as u32 * 256 + d.day as u32
}

proof fn lemma_key_injective(a: CalendarDate, b: CalendarDate)
    requires
        key_of(a) == key_of(b),
    ensures
        a == b,
{
}

/// The first repeat does not change once it has been found: a sequence has
/// the same first repeat as each of its prefixes that has one.
pub proof fn lemma_first_repeat_extends(s: Seq<CalendarDate>, n: int)
    requires
        0 <= n <= s.len(),
        first_repeat(s.subrange(0, n)) is Some,
    ensures
        first_repeat(s) == first_repeat(s.subrange(0, n)),
    decreases s.len() - n,
{
    if n < s.len() {
        assert(s.subrange(0, n + 1).drop_last() =~= s.subrange(0, n));
        lemma_first_repeat_extends(s, n + 1);
    } else {
        assert(s.subrange(0, n) =~= s);
    }
}

/// The two detectors agree: there is a first repeat exactly when the group
/// has a collision, and the date reported stands in the group at least twice.
pub proof fn lemma_first_repeat_consistent(s: Seq<CalendarDate>)
    ensures
        first_repeat(s) is None <==> !has_repeat(s),
        first_repeat(s) matches Some(d) ==> occurs_twice(s, d),
    decreases s.len(),
{
    if s.len() > 0 {
        let p = s.drop_last();
        lemma_first_repeat_consistent(p);
        let l = s.len() - 1;
        match first_repeat(p) {
            Some(d) => {
                let (i, j) = choose|i: int, j: int| 0 <= i < j < p.len() && p[i] == d && p[j] == d;
                assert(s[i] == d && s[j] == d);
                assert(has_repeat(s));
            },
            None => {
                if p.contains(s.last()) {
                    let i = choose|i: int| 0 <= i < p.len() && p[i] == s.last();
                    assert(s[i] == s[l]);
                    assert(occurs_twice(s, s.last()));
                } else {
                    assert forall|i: int, j: int|
                        0 <= i < s.len() && 0 <= j < s.len() && i != j implies s[i] != s[j] by {
                        if i < l && j < l {
                            assert(p[i] != p[j]);
                        } else if i == l {
                            assert(p[j] != s.last());
                        } else {
                            assert(p[i] != s.last());
                        }
                    }
                }
            },
        }
    }
}

/// A group has a collision exactly when it holds fewer distinct dates than
/// people.
pub proof fn lemma_repeat_iff_fewer_distinct(s: Seq<CalendarDate>)
    ensures
        has_repeat(s) <==> s.to_set().len() < s.len(),
{
    s.lemma_cardinality_of_set();
    if s.no_duplicates() {
        s.unique_seq_to_set();
    } else if s.to_set().len() == s.len() {
        s.lemma_no_dup_set_cardinality();
    }
}

/// Pigeonhole: a group of valid dates with more people than the year has
/// days always has a collision.
pub proof fn lemma_more_people_than_days(group: Seq<CalendarDate>)
    requires
        all_valid(group),
        group.len() > DAYS_IN_YEAR,
    ensures
        has_repeat(group),
{
    if !has_repeat(group) {
        let t = group.map_values(|d: CalendarDate| d.day_index());
        assert forall|i: int, j: int|
            0 <= i < t.len() && 0 <= j < t.len() && i != j implies t[i] != t[j] by {
            if t[i] == t[j] {
                lemma_day_index_injective(group[i], group[j]);
            }
        }
        t.unique_seq_to_set();
        assert forall|x: int| t.to_set().contains(x) implies set_int_range(0, 365).contains(x) by {
            let i = choose|i: int| 0 <= i < t.len() && t[i] == x;
            lemma_day_index_inverse(group[i]);
        }
        lemma_int_range(0, 365);
        lemma_len_subset(t.to_set(), set_int_range(0, 365));
    }
}

/// Detection is a function of the group alone: two checks of the same group
/// give the same answer.
pub proof fn lemma_detection_repeatable(group: Seq<CalendarDate>, first: bool, second: bool)
    requires
        first == has_repeat(group),
        second == has_repeat(group),
    ensures
        first == second,
{
}

/// The first date, reading the group from left to right, that has already
/// appeared earlier in it; `None` when all dates differ.
/// One pass over the group, with a set of the dates seen so far.
pub fn find_one_collision(group: &[CalendarDate]) -> (r: Option<CalendarDate>)
    ensures
        r == first_repeat(group@),
{
    let mut seen: HashSet<u32> = HashSet::new();
    let mut i: usize = 0;
    while i < group.len()
        invariant
            0 <= i <= group@.len(),
            first_repeat(group@.subrange(0, i as int)) is None,
            forall|j: int| 0 <= j < i ==> seen@.contains(#[trigger] key_of(group@[j])),
            forall|k: u32|
                #![trigger seen@.contains(k)]
                seen@.contains(k) ==> exists|j: int| 0 <= j < i && key_of(group@[j]) == k,
        decreases group@.len() - i,
    {
        let d = group[i];
        let k = date_key(d);
        let ghost p = group@.subrange(0, i as int);
        proof {
            assert(group@.subrange(0, i + 1).drop_last() =~= p);
            assert(group@.subrange(0, i + 1).last() == d);
        }
        if seen.contains(&k) {
            proof {
                let j = choose|j: int| 0 <= j < i && key_of(group@[j]) == k;
                lemma_key_injective(group@[j], d);
                assert(p[j] == d);
                lemma_first_repeat_extends(group@, i + 1);
            }
            return Some(d);
        }
        proof {
            assert forall|j: int| 0 <= j < i implies p[j] != d by {
                if p[j] == d {
                    assert(seen@.contains(key_of(group@[j])));
                }
            }
        }
        seen.insert(k);
        i = i + 1;
        proof {
            assert forall|k2: u32| #[trigger] seen@.contains(k2) implies exists|j: int|
                0 <= j < i && key_of(group@[j]) == k2 by {
                if k2 == k {
                    assert(key_of(group@[i - 1]) == k2);
                }
            }
        }
    }
    proof {
        assert(group@.subrange(0, i as int) =~= group@);
    }
    None
}

/// Whether two people of the group share a birthday.
pub fn has_collision(group: &[CalendarDate]) -> (r: bool)
    ensures
        r == has_repeat(group@),
{
    let m = find_one_collision(group);
    proof {
        lemma_first_repeat_consistent(group@);
    }
    m.is_some()
}

} // verus!
