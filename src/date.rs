use chrono::Datelike;
use chrono::NaiveDate;
use vstd::prelude::*;

verus! {

/// The number of days in the year that birthdays are drawn from.
pub const DAYS_IN_YEAR: u32 = 365;

/// The calendar year that offsets are counted in: any common year would do.
pub const REFERENCE_YEAR: i32 = 1997;

/// A birthday: a month (1 to 12) and a day of that month.
/// Two dates are equal when their months and days are.
#[derive(Clone, Copy, Debug, PartialEq, Eq, Hash, Structural)]
pub struct CalendarDate {
    pub month: u8,
    pub day: u8,
}

/// The length of month `m` in a common year.
pub open spec fn days_in_month(m: int) -> int {
    if m == 2 {
        28
    } else if m == 4 || m == 6 || m == 9 || m == 11 {
        30
    } else {
        31
    }
}

/// The number of days of a common year that come before month `m`.
pub open spec fn days_before_month(m: int) -> int
    decreases m,
{
    if m <= 1 {
        0
    } else {
        days_before_month(m - 1) + days_in_month(m - 1)
    }
}

/// Whether `y` is a common (non-leap) year of the Gregorian calendar.
pub open spec fn is_common_year(y: int) -> bool {
    y % 4 != 0 || (y % 100 == 0 && y % 400 != 0)
}

/// The month and day of the `ord`-th day (counted from 1) of a common year.
pub open spec fn month_day_of(ord: int) -> (int, int) {
    if ord <= 31 {
        (1, ord)
    } else if ord <= 59 {
        (2, ord - 31)
    } else if ord <= 90 {
        (3, ord - 59)
    } else if ord <= 120 {
        (4, ord - 90)
    } else if ord <= 151 {
        (5, ord - 120)
    } else if ord <= 181 {
        (6, ord - 151)
    } else if ord <= 212 {
        (7, ord - 181)
    } else if ord <= 243 {
        (8, ord - 212)
    } else if ord <= 273 {
        (9, ord - 243)
    } else if ord <= 304 {
        (10, ord - 273)
    } else if ord <= 334 {
        (11, ord - 304)
    } else {
        (12, ord - 334)
    }
}

impl CalendarDate {
    /// The date names a day of a common year.
    pub open spec fn is_valid(self) -> bool {
        1 <= self.month <= 12 && 1 <= self.day <= days_in_month(self.month as int)
    }

    /// The position of the date in a common year, counted from 0.
    pub open spec fn day_index(self) -> int {
        days_before_month(self.month as int) + self.day - 1
    }
}

/// Every date of a group names a day of a common year.
pub open spec fn all_valid(group: Seq<CalendarDate>) -> bool {
    forall|i: int| 0 <= i < group.len() ==> (#[trigger] group[i]).is_valid()
}

/// The date that lies `offset` days after the first of January of a common year.
pub open spec fn date_at_offset(offset: int) -> CalendarDate {
    let (m, d) = month_day_of(offset + 1);
    CalendarDate { month: m as u8, day: d as u8 }
}

/// A valid date is found again from its position in the year.
pub proof fn lemma_day_index_inverse(d: CalendarDate)
    requires
        d.is_valid(),
    ensures
        0 <= d.day_index() < DAYS_IN_YEAR,
        date_at_offset(d.day_index()) == d,
{
    reveal_with_fuel(days_before_month, 13);
}

/// Two valid dates with the same position in the year are the same date.
pub proof fn lemma_day_index_injective(a: CalendarDate, b: CalendarDate)
    requires
        a.is_valid(),
        b.is_valid(),
        a.day_index() == b.day_index(),
    ensures
        a == b,
{
    lemma_day_index_inverse(a);
    lemma_day_index_inverse(b);
}

/// Relies on chrono's `NaiveDate::from_yo_opt` (a date from a year and a
/// day of that year, `None` where that day does not exist) and on
/// `Datelike::month` / `Datelike::day` (both counted from 1).
#[verifier::external_body]
fn month_and_day(year: i32, ordinal: u32) -> (r: Option<(u32, u32)>)
    requires
        1 <= year <= 9999,
        is_common_year(year as int),
    ensures
        1 <= ordinal <= 365 ==> r == Some(
            (month_day_of(ordinal as int).0 as u32, month_day_of(ordinal as int).1 as u32),
        ),
        !(1 <= ordinal <= 365) ==> r is None,
{
    NaiveDate::from_yo_opt(year, ordinal).map(|d| (d.month(), d.day()))
}

/// The date `offset` days after the first of January of the reference year.
pub fn date_from_offset(offset: u32) -> (r: CalendarDate)
    requires
        offset < DAYS_IN_YEAR,
    ensures
        r == date_at_offset(offset as int),
        r.is_valid(),
{
    let md = month_and_day(REFERENCE_YEAR, offset + 1);
    let (m, d) = md.unwrap();
    proof {
        reveal_with_fuel(days_before_month, 13);
    }
    CalendarDate { month: m as u8, day: d as u8 }
}

} // verus!
