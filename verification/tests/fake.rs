use meteo::fake::{fake_condition, fake_day, fake_hours, fake_wind_dir, FakeReadings};
use meteo::weather::{Condition, WindDir};

fn readings(rain_band: u8, wind: u32, freezing: bool) -> FakeReadings {
    FakeReadings { rain_band, breezy: wind > 8, windy: wind > 12, gusty: wind > 13, freezing }
}

#[test]
fn fake_calendar() {
    assert_eq!(fake_hours(), vec![2, 5, 8, 11, 14, 17, 20, 23]);
    let kinds: Vec<(bool, bool, bool)> =
        (0..5).map(|d| fake_day(d)).map(|k| (k.rain, k.fog, k.snow)).collect();
    assert_eq!(
        kinds,
        vec![
            (false, false, false),
            (true, false, false),
            (false, true, false),
            (false, false, true),
            (true, false, false)
        ]
    );
    assert_eq!(fake_wind_dir(2, 0), WindDir::N);
    assert_eq!(fake_wind_dir(23, 0), WindDir::NW);
    assert_eq!(fake_wind_dir(2, 1), WindDir::E);
    assert_eq!(fake_wind_dir(14, 4), WindDir::S);
}

#[test]
fn fake_conditions_cover_every_variant() {
    let rain = fake_day(1);
    assert_eq!(fake_condition(rain, 2, readings(0, 0, false)), Condition::Overcast);
    assert_eq!(fake_condition(rain, 8, readings(1, 0, false)), Condition::Drizzle);
    assert_eq!(fake_condition(rain, 11, readings(2, 0, false)), Condition::Rain);
    assert_eq!(fake_condition(rain, 11, readings(3, 0, false)), Condition::RainShowers);
    assert_eq!(fake_condition(rain, 14, readings(4, 0, false)), Condition::Thunderstorm);
    let fog = fake_day(2);
    assert_eq!(fake_condition(fog, 8, readings(0, 20, false)), Condition::Fog);
    assert_eq!(fake_condition(fog, 11, readings(0, 13, false)), Condition::PartlyCloudy);
    assert_eq!(fake_condition(fog, 11, readings(0, 12, false)), Condition::Overcast);
    let snow = fake_day(3);
    assert_eq!(fake_condition(snow, 2, readings(0, 14, true)), Condition::SnowShowers);
    assert_eq!(fake_condition(snow, 2, readings(0, 13, true)), Condition::Snow);
    assert_eq!(fake_condition(snow, 2, readings(0, 13, false)), Condition::Sleet);
    let clear = fake_day(0);
    assert_eq!(fake_condition(clear, 2, readings(0, 14, false)), Condition::PartlyCloudy);
    assert_eq!(fake_condition(clear, 2, readings(0, 9, false)), Condition::MostlyClear);
    assert_eq!(fake_condition(clear, 2, readings(0, 8, false)), Condition::Clear);
}
