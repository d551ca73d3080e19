use meteo::weather::{bearing_to_wind_dir, wmo_to_condition, Condition, WindDir};

#[test]
fn arrows_point_where_the_wind_blows() {
    assert_eq!(WindDir::N.arrow(), "↑");
    assert_eq!(WindDir::NE.arrow(), "↗");
    assert_eq!(WindDir::E.arrow(), "→");
    assert_eq!(WindDir::SE.arrow(), "↘");
    assert_eq!(WindDir::S.arrow(), "↓");
    assert_eq!(WindDir::SW.arrow(), "↙");
    assert_eq!(WindDir::W.arrow(), "←");
    assert_eq!(WindDir::NW.arrow(), "↖");
}

#[test]
fn from_index_wraps_every_eight() {
    let order = [
        WindDir::N,
        WindDir::NE,
        WindDir::E,
        WindDir::SE,
        WindDir::S,
        WindDir::SW,
        WindDir::W,
        WindDir::NW,
    ];
    for i in 0..24usize {
        assert_eq!(WindDir::from_index(i), order[i % 8]);
        assert_eq!(WindDir::from_index(i), WindDir::from_index(i + 8));
    }
}

#[test]
fn condition_icons_and_backgrounds() {
    assert_eq!(Condition::Clear.icon(), "☀");
    assert_eq!(Condition::MostlyClear.icon(), "🌤");
    assert_eq!(Condition::PartlyCloudy.icon(), "⛅");
    assert_eq!(Condition::Overcast.icon(), "☁");
    assert_eq!(Condition::Fog.icon(), "🌫");
    assert_eq!(Condition::Drizzle.icon(), "🌦");
    assert_eq!(Condition::Rain.icon(), "🌧");
    assert_eq!(Condition::RainShowers.icon(), "⛆");
    assert_eq!(Condition::Snow.icon(), "❄");
    assert_eq!(Condition::SnowShowers.icon(), "🌨");
    assert_eq!(Condition::Sleet.icon(), "☃");
    assert_eq!(Condition::Thunderstorm.icon(), "⛈");
    assert_eq!(Condition::Clear.bg_color(), (226, true));
    assert_eq!(Condition::MostlyClear.bg_color(), (220, true));
    assert_eq!(Condition::PartlyCloudy.bg_color(), (117, true));
    assert_eq!(Condition::Overcast.bg_color(), (244, true));
    assert_eq!(Condition::Fog.bg_color(), (252, true));
    assert_eq!(Condition::Drizzle.bg_color(), (111, true));
    assert_eq!(Condition::Rain.bg_color(), (33, false));
    assert_eq!(Condition::RainShowers.bg_color(), (27, false));
    assert_eq!(Condition::Snow.bg_color(), (195, true));
    assert_eq!(Condition::SnowShowers.bg_color(), (189, true));
    assert_eq!(Condition::Sleet.bg_color(), (153, true));
    assert_eq!(Condition::Thunderstorm.bg_color(), (91, false));
}

#[test]
fn wmo_codes_map_to_conditions() {
    let cases: [(i64, Condition); 24] = [
        (0, Condition::Clear),
        (1, Condition::MostlyClear),
        (2, Condition::PartlyCloudy),
        (3, Condition::Overcast),
        (45, Condition::Fog),
        (48, Condition::Fog),
        (51, Condition::Drizzle),
        (57, Condition::Drizzle),
        (61, Condition::Rain),
        (63, Condition::Rain),
        (65, Condition::Rain),
        (66, Condition::Sleet),
        (67, Condition::Sleet),
        (71, Condition::Snow),
        (77, Condition::Snow),
        (80, Condition::RainShowers),
        (82, Condition::RainShowers),
        (85, Condition::SnowShowers),
        (86, Condition::SnowShowers),
        (95, Condition::Thunderstorm),
        (99, Condition::Thunderstorm),
        (4, Condition::Clear),
        (62, Condition::Clear),
        (-1, Condition::Clear),
    ];
    for (code, expected) in cases {
        assert_eq!(wmo_to_condition(code), expected, "code {}", code);
    }
}

#[test]
fn bearings_fall_in_compass_sectors() {
    let cases: [(u32, WindDir); 18] = [
        (0, WindDir::N),
        (22, WindDir::N),
        (23, WindDir::NE),
        (67, WindDir::NE),
        (68, WindDir::E),
        (112, WindDir::E),
        (113, WindDir::SE),
        (157, WindDir::SE),
        (158, WindDir::S),
        (202, WindDir::S),
        (203, WindDir::SW),
        (247, WindDir::SW),
        (248, WindDir::W),
        (292, WindDir::W),
        (293, WindDir::NW),
        (337, WindDir::NW),
        (338, WindDir::N),
        (360, WindDir::N),
    ];
    for (b, expected) in cases {
        assert_eq!(bearing_to_wind_dir(b), expected, "bearing {}", b);
    }
    assert_eq!(bearing_to_wind_dir(400), WindDir::N);
}

#[test]
fn bearing_sector_matches_rounding_to_eighths() {
    let order = [
        WindDir::N,
        WindDir::NE,
        WindDir::E,
        WindDir::SE,
        WindDir::S,
        WindDir::SW,
        WindDir::W,
        WindDir::NW,
    ];
    for b in 0..=360u32 {
        assert_eq!(bearing_to_wind_dir(b), order[(((b + 22) / 45) % 8) as usize]);
    }
}
