use chrono::{Datelike, NaiveDate};
use meteo::forecast::{
    assemble_forecast, display_hour, group_days, index_model, merge_models, slot_day, slot_hour,
    slot_key,
};
use std::collections::BTreeMap;

fn day(y: i32, m: u32, d: u32) -> i32 {
    NaiveDate::from_ymd_opt(y, m, d).unwrap().num_days_from_ce()
}

fn times(list: &[&str]) -> Vec<String> {
    list.iter().map(|s| s.to_string()).collect()
}

#[test]
fn slot_codes_decode() {
    let d = day(2024, 6, 1);
    let k = slot_key(d, 14, 30);
    assert_eq!(slot_day(k), d as i64);
    assert_eq!(slot_hour(k), 14);
    assert!(slot_key(d, 23, 59) < slot_key(d + 1, 0, 0));
    assert!(slot_key(d, 5, 0) < slot_key(d, 5, 1));
    assert_eq!(slot_day(slot_key(i32::MIN, 0, 0)), i32::MIN as i64);
    assert_eq!(slot_day(slot_key(i32::MAX, 23, 59)), i32::MAX as i64);
    assert_eq!(slot_hour(slot_key(-5, 7, 3)), 7);
}

#[test]
fn display_hours_are_three_hourly() {
    let shown: Vec<u8> = (0..24u8).filter(|h| display_hour(*h)).collect();
    assert_eq!(shown, vec![2, 5, 8, 11, 14, 17, 20, 23]);
}

#[test]
fn model_timestamps_are_indexed() {
    let t = times(&["2024-06-01T00:00", "2024-06-01T01:00", "2024-06-02T14:00"]);
    let m = index_model(&t, &vec![10u32, 11, 12]).ok().unwrap();
    let d = day(2024, 6, 1);
    assert_eq!(m.len(), 3);
    assert_eq!(m[&slot_key(d, 0, 0)], 10);
    assert_eq!(m[&slot_key(d, 1, 0)], 11);
    assert_eq!(m[&slot_key(d + 1, 14, 0)], 12);
}

#[test]
fn later_duplicate_timestamp_wins() {
    let t = times(&["2024-06-01T03:00", "2024-06-01T03:00"]);
    let m = index_model(&t, &vec![1u32, 2]).ok().unwrap();
    assert_eq!(m.len(), 1);
    assert_eq!(m[&slot_key(day(2024, 6, 1), 3, 0)], 2);
}

#[test]
fn unreadable_timestamp_is_reported_with_its_position() {
    let t = times(&["2024-06-01T00:00", "2024-06-01 01:00", "garbage"]);
    match index_model(&t, &vec![1u32, 2, 3]) {
        Ok(_) => panic!("accepted a bad timestamp"),
        Err(e) => {
            assert_eq!(e.index, 1);
            assert!(!e.cause.to_string().is_empty());
        }
    }
    let empty: Vec<String> = Vec::new();
    assert!(index_model(&empty, &Vec::<u32>::new()).ok().unwrap().is_empty());
}

fn model(d0: i32, days: i32, tag: u32) -> BTreeMap<u64, u32> {
    let mut m = BTreeMap::new();
    for d in 0..days {
        for h in 0..24u32 {
            m.insert(slot_key(d0 + d, h, 0), tag * 10000 + (d as u32) * 100 + h);
        }
    }
    m
}

#[test]
fn cascade_prefers_the_finest_model_in_its_window() {
    let today = day(2024, 6, 1);
    let best = model(today, 16, 1);
    let arpege = model(today, 4, 2);
    let arome = model(today, 2, 3);
    let m = merge_models(today, &best, Some(&arpege), Some(&arome));
    assert_eq!(m.len(), 16 * 24);
    assert_eq!(m[&slot_key(today, 5, 0)], 30005);
    assert_eq!(m[&slot_key(today + 1, 23, 0)], 30123);
    assert_eq!(m[&slot_key(today + 2, 0, 0)], 20200);
    assert_eq!(m[&slot_key(today + 3, 7, 0)], 20307);
    assert_eq!(m[&slot_key(today + 4, 7, 0)], 10407);
    assert_eq!(m[&slot_key(today + 15, 23, 0)], 11523);
}

#[test]
fn cascade_without_the_regional_models() {
    let today = day(2024, 6, 1);
    let best = model(today, 3, 1);
    let arpege = model(today, 6, 2);
    let m = merge_models(today, &best, Some(&arpege), None);
    // ARPEGE only counts before day 4, even where best match has nothing.
    assert_eq!(m.len(), 4 * 24);
    assert_eq!(m[&slot_key(today + 3, 1, 0)], 20301);
    let only_best = merge_models(today, &best, None, None);
    assert_eq!(only_best, best);
}

#[test]
fn days_keep_every_hour_first_then_three_hourly() {
    let today = day(2024, 6, 1);
    let best = model(today, 5, 1);
    let days = assemble_forecast(today, &best, None, None);
    assert_eq!(days.len(), 5);
    for (i, d) in days.iter().enumerate() {
        assert_eq!(d.date, (today + i as i32) as i64);
        let hours: Vec<u8> = d.slots.iter().map(|s| s.hour).collect();
        if i < 2 {
            assert_eq!(hours, (0..24u8).collect::<Vec<u8>>());
        } else {
            assert_eq!(hours, vec![2, 5, 8, 11, 14, 17, 20, 23]);
        }
        for s in &d.slots {
            assert_eq!(s.value, 10000 + (i as u32) * 100 + s.hour as u32);
            assert_eq!(slot_day(s.time), d.date);
        }
    }
}

#[test]
fn a_day_without_display_hours_is_dropped() {
    let today = day(2024, 6, 1);
    let mut m = BTreeMap::new();
    m.insert(slot_key(today + 5, 1, 0), 'a');
    m.insert(slot_key(today + 6, 4, 0), 'b');
    m.insert(slot_key(today + 6, 5, 0), 'c');
    m.insert(slot_key(today, 3, 0), 'd');
    let days = group_days(&m, today as i64 + 2);
    assert_eq!(days.len(), 2);
    assert_eq!(days[0].date, today as i64);
    assert_eq!(days[0].slots.len(), 1);
    assert_eq!(days[0].slots[0].value, 'd');
    assert_eq!(days[1].date, (today + 6) as i64);
    assert_eq!(days[1].slots.len(), 1);
    assert_eq!(days[1].slots[0].value, 'c');
    assert!(group_days(&BTreeMap::<u64, u8>::new(), 0).is_empty());
}
