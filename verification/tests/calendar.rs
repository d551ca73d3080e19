use chrono::{Datelike, NaiveDate};
use meteo::calendar::{calendar_day, Weekday};

#[test]
fn calendar_facts_come_from_chrono() {
    let d = NaiveDate::from_ymd_opt(2024, 6, 1).unwrap().num_days_from_ce() as i64;
    let c = calendar_day(d).unwrap();
    assert_eq!(c.weekday, Weekday::Sat);
    assert_eq!(c.day, 1);
    let c2 = calendar_day(d + 30).unwrap();
    assert_eq!(c2.weekday, Weekday::Mon);
    assert_eq!(c2.day, 1);
    assert_eq!(calendar_day(1).unwrap().weekday, Weekday::Mon);
}

#[test]
fn days_out_of_range_have_no_calendar() {
    assert!(calendar_day(i64::MAX).is_none());
    assert!(calendar_day(i32::MAX as i64 + 1).is_none());
    assert!(calendar_day(i32::MAX as i64).is_none());
}

#[test]
fn weekdays_repeat_every_seven_days_before_the_era_too() {
    assert_eq!(calendar_day(0).unwrap().weekday, Weekday::Sun);
    assert_eq!(calendar_day(0).unwrap().day, 31);
    assert_eq!(calendar_day(-6).unwrap().weekday, Weekday::Mon);
    assert_eq!(calendar_day(8).unwrap().weekday, Weekday::Mon);
}
