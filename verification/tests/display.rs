use chrono::{Datelike, NaiveDate};
use meteo::calendar::{calendar_day, CalendarDay, Weekday};
use meteo::display::{
    day_abbr, find_current, forecast_lines, format_row, is_french, wind_header_lines, DayRows,
    RowCells,
};
use meteo::graph::Role;
use meteo::weather::{Condition, WindDir};

fn row(hour: u8, temp: f32) -> RowCells<f32> {
    RowCells {
        hour,
        temp,
        temp_c: temp.round() as i32,
        temp_paint: Some((46, true)),
        wind_dir: WindDir::SW,
        wind_kmh: 12,
        wind_paint: Some((33, false)),
        gust_kmh: 0,
        gust_paint: None,
        pressure_hpa: 1013,
        rain_mm: format!("{:.1}", 0.4f32),
        rain_paint: Some((21, false)),
        condition: Condition::Rain,
    }
}

#[test]
fn weekday_labels() {
    assert_eq!(day_abbr(Weekday::Mon, true), "Lun");
    assert_eq!(day_abbr(Weekday::Sun, true), "Dim");
    assert_eq!(day_abbr(Weekday::Wed, false), "Wed");
    assert_eq!(day_abbr(Weekday::Sat, false), "Sat");
    assert!(is_french("fr"));
    assert!(!is_french("en"));
    assert!(!is_french("FR"));
}

#[test]
fn wind_headers() {
    let (a, b) = wind_header_lines(true);
    assert_eq!(a, format!("{}Vitesse vent", " ".repeat(27)));
    assert_eq!(b, format!("{} Moy. Rafale", " ".repeat(27)));
    let (c, d) = wind_header_lines(false);
    assert_eq!(c, format!("{} Wind speed ", " ".repeat(27)));
    assert_eq!(d, format!("{} Avg.  Burst", " ".repeat(27)));
}

#[test]
fn row_layout_matches_the_column_formats() {
    let r = row(5, -3.4);
    let cal = CalendarDay { weekday: Weekday::Tue, day: 4 };
    let text = format_row(&r, &cal, true, true, true);
    let expected = format!(
        "{}{}{}{}{}{}{}{}{}{}",
        "🠞 ",
        format!("{} {:>2}  ", "Mar", 4),
        format!("{:<4}", format!("{}h", 5)),
        format!("\x1b[48;5;{}m{}{}\x1b[0m", 46, "\x1b[30m", format!("{:>4}°C  ", -3)),
        format!("{:^5}", "↙"),
        format!("\x1b[48;5;{}m{}{}\x1b[0m", 33, "\x1b[97m", format!("{:>4}  ", 12)),
        format!("{:>4}  ", 0),
        format!("{:>7}", 1013),
        format!("\x1b[48;5;{}m{}{}\x1b[0m", 21, "\x1b[97m", format!("{:>6.1}mm  ", 0.4f32)),
        format!("   \x1b[48;5;{}m{} {} \x1b[0m", 33, "\x1b[97m", "🌧"),
    );
    assert_eq!(text, expected);
    let plain = format_row(&r, &cal, false, false, false);
    assert!(plain.starts_with("          5h  "));
}

fn sample_days(today: i64) -> Vec<DayRows<f32>> {
    vec![
        DayRows {
            date: today,
            calendar: calendar_day(today).unwrap(),
            rows: vec![row(2, 10.0), row(5, 11.0), row(8, 12.0)],
        },
        DayRows {
            date: today + 1,
            calendar: calendar_day(today + 1).unwrap(),
            rows: vec![row(2, 13.0), row(5, 14.0)],
        },
    ]
}

#[test]
fn current_hour_is_the_latest_passed_one_today() {
    let today = NaiveDate::from_ymd_opt(2024, 6, 1).unwrap().num_days_from_ce() as i64;
    let days = sample_days(today);
    assert_eq!(find_current(&days, today, 6), Some((today, 5)));
    assert_eq!(find_current(&days, today, 8), Some((today, 8)));
    assert_eq!(find_current(&days, today, 23), Some((today, 8)));
    assert_eq!(find_current(&days, today, 1), None);
    assert_eq!(find_current(&days, today + 5, 12), None);
}

#[test]
fn table_lines_in_forward_order() {
    let today = NaiveDate::from_ymd_opt(2024, 6, 1).unwrap().num_days_from_ce() as i64;
    let days = sample_days(today);
    let lines = forecast_lines(&days, today, 6, false, false, Some("Paris (75001)"));
    let roles: Vec<Role> = lines.iter().map(|l| l.role).collect();
    assert_eq!(
        roles,
        vec![
            Role::Plain,
            Role::GraphTitle,
            Role::GraphAxis,
            Role::Body,
            Role::Body,
            Role::Body,
            Role::Body,
            Role::Body,
            Role::Body
        ]
    );
    assert_eq!(lines[0].text, "Paris (75001)");
    let temps: Vec<Option<f32>> = lines.iter().map(|l| l.temp).collect();
    assert_eq!(
        temps,
        vec![None, None, None, Some(10.0), Some(11.0), Some(12.0), None, Some(13.0), Some(14.0)]
    );
    assert_eq!(lines[6].text, "");
    assert!(lines[3].text.starts_with("  Sat  1  2h  "));
    assert!(lines[4].text.starts_with("🠞         5h  "));
    assert!(lines[5].text.starts_with("          8h  "));
    assert!(lines[7].text.starts_with("  Sun  2  2h  "));
}

#[test]
fn table_lines_in_reverse_order() {
    let today = NaiveDate::from_ymd_opt(2024, 6, 1).unwrap().num_days_from_ce() as i64;
    let days = sample_days(today);
    let lines = forecast_lines(&days, today, 6, true, true, None);
    assert_eq!(lines.len(), 2 + 3 + 1 + 2);
    assert_eq!(lines[0].role, Role::GraphTitle);
    let temps: Vec<Option<f32>> = lines.iter().map(|l| l.temp).collect();
    assert_eq!(
        temps,
        vec![None, None, Some(14.0), Some(13.0), None, Some(12.0), Some(11.0), Some(10.0)]
    );
    assert!(lines[2].text.starts_with("  Dim  2  5h  "));
    assert!(lines[5].text.starts_with("  Sam  1  8h  "));
    assert!(lines[6].text.starts_with("🠞         5h  "));
}

#[test]
fn every_row_is_sixty_three_columns_wide() {
    let cal = CalendarDay { weekday: Weekday::Thu, day: 28 };
    let conditions = [
        Condition::Clear,
        Condition::MostlyClear,
        Condition::PartlyCloudy,
        Condition::Overcast,
        Condition::Fog,
        Condition::Drizzle,
        Condition::Rain,
        Condition::RainShowers,
        Condition::Snow,
        Condition::SnowShowers,
        Condition::Sleet,
        Condition::Thunderstorm,
    ];
    for (i, c) in conditions.iter().enumerate() {
        let mut r = row((i * 2) as u8, -12.6 + i as f32 * 4.0);
        r.condition = *c;
        r.wind_paint = if i % 2 == 0 { None } else { Some((200, false)) };
        r.rain_mm = format!("{:.1}", i as f32 * 1.7);
        for show in [true, false] {
            for current in [true, false] {
                let text = format_row(&r, &cal, show, i % 3 == 0, current);
                assert_eq!(meteo::text::display_width(&text), 63, "{:?}", text);
            }
        }
    }
}
