//! Calendar facts about a day, read from `chrono`.

use chrono::Datelike;
use vstd::prelude::*;

verus! {

/// Day of the week.
#[derive(Debug, Clone, Copy, PartialEq, Eq, Structural)]
pub enum Weekday {
    Mon,
    Tue,
    Wed,
    Thu,
    Fri,
    Sat,
    Sun,
}

/// The weekday counted `n` days from Monday.
pub open spec fn weekday_from_monday(n: int) -> Weekday {
    if n == 0 {
        Weekday::Mon
    } else if n == 1 {
        Weekday::Tue
    } else if n == 2 {
        Weekday::Wed
    } else if n == 3 {
        Weekday::Thu
    } else if n == 4 {
        Weekday::Fri
    } else if n == 5 {
        Weekday::Sat
    } else {
        Weekday::Sun
    }
}

/// What a label needs to know of a date.
#[derive(Debug, Clone, Copy, PartialEq, Eq, Structural)]
pub struct CalendarDay {
    /// Day of the week.
    pub weekday: Weekday,
    /// Day of the month, 1 to 31.
    pub day: u32,
}

/// Day of the month of the date that
/// `chrono::NaiveDate::from_num_days_from_ce_opt(days)` builds, or `None`
/// when `days` is out of `chrono`'s range.
pub uninterp spec fn chrono_month_day(days: int) -> Option<int>;

/// The weekday of day number `days`, counted from Monday: day 1 of the common
/// era (0001-01-01 in the proleptic Gregorian calendar) is a Monday, and
/// weekdays repeat every seven days.
pub open spec fn weekday_number(days: int) -> int {
    (days - 1) % 7
}

/// Calls `chrono::NaiveDate::from_num_days_from_ce_opt(days)` and reads the
/// date's `weekday().num_days_from_monday()` and `day()`. Trusted: the date
/// exists exactly when `chrono_month_day(days)` does; its weekday is
/// `weekday_number(days)` and its day of the month `chrono_month_day(days)`,
/// from 1 to 31, as `chrono`'s `Datelike` documents.
#[verifier::external_body]
fn date_parts(days: i32) -> (r: Option<(u32, u32)>)
    ensures
        match r {
            Some(p) => {
                &&& p.0 == weekday_number(days as int)
                &&& chrono_month_day(days as int) == Some(p.1 as int)
                &&& 1 <= p.1 <= 31
            },
            None => chrono_month_day(days as int) is None,
        },
{
    match chrono::NaiveDate::from_num_days_from_ce_opt(days) {
        Some(d) => Some((d.weekday().num_days_from_monday(), d.day())),
        None => None,
    }
}

/// The calendar facts of day number `date` (counted from the common era),
/// when `chrono` can represent it.
pub open spec fn calendar_of(date: int) -> Option<CalendarDay> {
    if i32::MIN <= date <= i32::MAX {
        match chrono_month_day(date) {
            Some(d) => Some(CalendarDay { weekday: weekday_from_monday(weekday_number(date)), day: d as u32 }),
            None => None,
        }
    } else {
        None
    }
}

/// Weekday and day of the month of day number `date`.
pub fn calendar_day(date: i64) -> (r: Option<CalendarDay>)
    ensures
        r == calendar_of(date as int),
        r matches Some(c) ==> 1 <= c.day <= 31,
{
    if date < i32::MIN as i64 || date > i32::MAX as i64 {
        return None;
    }
    match date_parts(date as i32) {
        Some(p) => {
            let weekday = match p.0 {
                0 => Weekday::Mon,
                1 => Weekday::Tue,
                2 => Weekday::Wed,
                3 => Weekday::Thu,
                4 => Weekday::Fri,
                5 => Weekday::Sat,
                _ => Weekday::Sun,
            };
            Some(CalendarDay { weekday, day: p.1 })
        },
        None => None,
    }
}

/// Weekdays follow each other Monday, Tuesday, ..., Sunday, then Monday
/// again, one per day, and day 1 of the common era is a Monday.
pub proof fn law_weekday_succession(d: int)
    ensures
        calendar_of(d) is Some && calendar_of(d + 1) is Some ==> {
            let a = calendar_of(d)->0.weekday;
            let b = calendar_of(d + 1)->0.weekday;
            &&& a == Weekday::Mon ==> b == Weekday::Tue
            &&& a == Weekday::Tue ==> b == Weekday::Wed
            &&& a == Weekday::Wed ==> b == Weekday::Thu
            &&& a == Weekday::Thu ==> b == Weekday::Fri
            &&& a == Weekday::Fri ==> b == Weekday::Sat
            &&& a == Weekday::Sat ==> b == Weekday::Sun
            &&& a == Weekday::Sun ==> b == Weekday::Mon
        },
        calendar_of(1) is Some ==> calendar_of(1)->0.weekday == Weekday::Mon,
        calendar_of(d) is Some && calendar_of(d + 7) is Some ==> calendar_of(d)->0.weekday == calendar_of(
            d + 7,
        )->0.weekday,
{
    let n = weekday_number(d);
    assert(0 <= n < 7);
    assert(weekday_number(d + 1) == if n == 6 { 0 } else { n + 1 });
    assert(weekday_number(d + 7) == n);
    assert(weekday_number(1) == 0);
    if calendar_of(d) is Some {
        assert(calendar_of(d)->0.weekday == weekday_from_monday(n));
        if calendar_of(d + 1) is Some {
            assert(calendar_of(d + 1)->0.weekday == weekday_from_monday(weekday_number(d + 1)));
        }
        if calendar_of(d + 7) is Some {
            assert(calendar_of(d + 7)->0.weekday == weekday_from_monday(n));
        }
    }
}

} // verus!
