//! Core weather vocabulary: wind directions and sky conditions.

use vstd::prelude::*;

verus! {

/// One of the eight compass directions the wind blows toward.
#[derive(Debug, Clone, Copy, PartialEq, Eq, Structural)]
pub enum WindDir {
    N,
    NE,
    E,
    SE,
    S,
    SW,
    W,
    NW,
}

/// Position of a direction on the compass rose, counted clockwise from north.
pub open spec fn wind_dir_index(d: WindDir) -> nat {
    match d {
        WindDir::N => 0,
        WindDir::NE => 1,
        WindDir::E => 2,
        WindDir::SE => 3,
        WindDir::S => 4,
        WindDir::SW => 5,
        WindDir::W => 6,
        WindDir::NW => 7,
    }
}

/// The arrow glyph drawn for a direction.
pub open spec fn wind_arrow_glyph(d: WindDir) -> Seq<char> {
    match d {
        WindDir::N => seq!['\u{2191}'],
        WindDir::NE => seq!['\u{2197}'],
        WindDir::E => seq!['\u{2192}'],
        WindDir::SE => seq!['\u{2198}'],
        WindDir::S => seq!['\u{2193}'],
        WindDir::SW => seq!['\u{2199}'],
        WindDir::W => seq!['\u{2190}'],
        WindDir::NW => seq!['\u{2196}'],
    }
}

impl WindDir {
    /// Unicode arrow pointing where the wind blows.
    pub fn arrow(self) -> (r: &'static str)
        ensures
            r@ == wind_arrow_glyph(self),
    {
        match self {
            WindDir::N => {
                proof { reveal_strlit("↑"); }
                "↑"
            },
            WindDir::NE => {
                proof { reveal_strlit("↗"); }
                "↗"
            },
            WindDir::E => {
                proof { reveal_strlit("→"); }
                "→"
            },
            WindDir::SE => {
                proof { reveal_strlit("↘"); }
                "↘"
            },
            WindDir::S => {
                proof { reveal_strlit("↓"); }
                "↓"
            },
            WindDir::SW => {
                proof { reveal_strlit("↙"); }
                "↙"
            },
            WindDir::W => {
                proof { reveal_strlit("←"); }
                "←"
            },
            WindDir::NW => {
                proof { reveal_strlit("↖"); }
                "↖"
            },
        }
    }

    /// Direction number `idx` on the compass rose, wrapping every eight steps.
    pub fn from_index(idx: usize) -> (r: WindDir)
        ensures
            wind_dir_index(r) == idx % 8,
    {
        match idx % 8 {
            0 => WindDir::N,
            1 => WindDir::NE,
            2 => WindDir::E,
            3 => WindDir::SE,
            4 => WindDir::S,
            5 => WindDir::SW,
            6 => WindDir::W,
            _ => WindDir::NW,
        }
    }
}

/// WMO-aligned sky condition. Covers the states returned by Open-Meteo,
/// OpenWeatherMap, Météo-France and similar services once their codes are mapped.
#[derive(Debug, Clone, Copy, PartialEq, Eq, Structural)]
pub enum Condition {
    /// WMO 0: clear sky.
    Clear,
    /// WMO 1: mainly clear, few clouds.
    MostlyClear,
    /// WMO 2: scattered clouds.
    PartlyCloudy,
    /// WMO 3: full cloud cover.
    Overcast,
    /// WMO 45/48: fog, freezing fog.
    Fog,
    /// WMO 51-57: drizzle.
    Drizzle,
    /// WMO 61-65: rain.
    Rain,
    /// WMO 80-82: rain showers.
    RainShowers,
    /// WMO 71-77: snowfall, snow grains.
    Snow,
    /// WMO 85/86: snow showers.
    SnowShowers,
    /// Mixed rain and snow (WMO 66/67, freezing rain).
    Sleet,
    /// WMO 95-99: thunderstorm, with or without hail.
    Thunderstorm,
}

/// The weather glyph drawn for a condition.
pub open spec fn condition_glyph(c: Condition) -> Seq<char> {
    match c {
        Condition::Clear => seq!['\u{2600}'],
        Condition::MostlyClear => seq!['\u{1F324}'],
        Condition::PartlyCloudy => seq!['\u{26C5}'],
        Condition::Overcast => seq!['\u{2601}'],
        Condition::Fog => seq!['\u{1F32B}'],
        Condition::Drizzle => seq!['\u{1F326}'],
        Condition::Rain => seq!['\u{1F327}'],
        Condition::RainShowers => seq!['\u{26C6}'],
        Condition::Snow => seq!['\u{2744}'],
        Condition::SnowShowers => seq!['\u{1F328}'],
        Condition::Sleet => seq!['\u{2603}'],
        Condition::Thunderstorm => seq!['\u{26C8}'],
    }
}

/// Fixed background of a condition's icon cell: 256-colour index, and whether
/// the glyph is drawn dark on it.
pub open spec fn condition_background(c: Condition) -> (u8, bool) {
    match c {
        Condition::Clear => (226, true),
        Condition::MostlyClear => (220, true),
        Condition::PartlyCloudy => (117, true),
        Condition::Overcast => (244, true),
        Condition::Fog => (252, true),
        Condition::Drizzle => (111, true),
        Condition::Rain => (33, false),
        Condition::RainShowers => (27, false),
        Condition::Snow => (195, true),
        Condition::SnowShowers => (189, true),
        Condition::Sleet => (153, true),
        Condition::Thunderstorm => (91, false),
    }
}

impl Condition {
    /// Unicode weather glyph for this condition.
    pub fn icon(self) -> (r: &'static str)
        ensures
            r@ == condition_glyph(self),
    {
        match self {
            Condition::Clear => {
                proof { reveal_strlit("☀"); }
                "☀"
            },
            Condition::MostlyClear => {
                proof { reveal_strlit("🌤"); }
                "🌤"
            },
            Condition::PartlyCloudy => {
                proof { reveal_strlit("⛅"); }
                "⛅"
            },
            Condition::Overcast => {
                proof { reveal_strlit("☁"); }
                "☁"
            },
            Condition::Fog => {
                proof { reveal_strlit("🌫"); }
                "🌫"
            },
            Condition::Drizzle => {
                proof { reveal_strlit("🌦"); }
                "🌦"
            },
            Condition::Rain => {
                proof { reveal_strlit("🌧"); }
                "🌧"
            },
            Condition::RainShowers => {
                proof { reveal_strlit("⛆"); }
                "⛆"
            },
            Condition::Snow => {
                proof { reveal_strlit("❄"); }
                "❄"
            },
            Condition::SnowShowers => {
                proof { reveal_strlit("🌨"); }
                "🌨"
            },
            Condition::Sleet => {
                proof { reveal_strlit("☃"); }
                "☃"
            },
            Condition::Thunderstorm => {
                proof { reveal_strlit("⛈"); }
                "⛈"
            },
        }
    }

    /// Fixed background colour for the icon cell: (256-colour index, dark foreground).
    pub fn bg_color(self) -> (r: (u8, bool))
        ensures
            r == condition_background(self),
    {
        match self {
            Condition::Clear => (226, true),
            Condition::MostlyClear => (220, true),
            Condition::PartlyCloudy => (117, true),
            Condition::Overcast => (244, true),
            Condition::Fog => (252, true),
            Condition::Drizzle => (111, true),
            Condition::Rain => (33, false),
            Condition::RainShowers => (27, false),
            Condition::Snow => (195, true),
            Condition::SnowShowers => (189, true),
            Condition::Sleet => (153, true),
            Condition::Thunderstorm => (91, false),
        }
    }
}

/// The condition a WMO weather code stands for; unknown codes read as clear.
pub open spec fn wmo_condition(code: int) -> Condition {
    if code == 0 {
        Condition::Clear
    } else if code == 1 {
        Condition::MostlyClear
    } else if code == 2 {
        Condition::PartlyCloudy
    } else if code == 3 {
        Condition::Overcast
    } else if code == 45 || code == 48 {
        Condition::Fog
    } else if 51 <= code <= 57 {
        Condition::Drizzle
    } else if code == 61 || code == 63 || code == 65 {
        Condition::Rain
    } else if code == 66 || code == 67 {
        Condition::Sleet
    } else if 71 <= code <= 77 {
        Condition::Snow
    } else if 80 <= code <= 82 {
        Condition::RainShowers
    } else if code == 85 || code == 86 {
        Condition::SnowShowers
    } else if 95 <= code <= 99 {
        Condition::Thunderstorm
    } else {
        Condition::Clear
    }
}

/// Maps a WMO weather code to a condition.
pub fn wmo_to_condition(code: i64) -> (c: Condition)
    ensures
        c == wmo_condition(code as int),
{
    match code {
        0 => Condition::Clear,
        1 => Condition::MostlyClear,
        2 => Condition::PartlyCloudy,
        3 => Condition::Overcast,
        45 | 48 => Condition::Fog,
        51..=57 => Condition::Drizzle,
        61 | 63 | 65 => Condition::Rain,
        66 | 67 => Condition::Sleet,  // freezing rain
        71..=77 => Condition::Snow,
        80..=82 => Condition::RainShowers,
        85 | 86 => Condition::SnowShowers,
        95..=99 => Condition::Thunderstorm,
        _ => Condition::Clear,
    }
}

/// The direction whose 45-degree sector holds `bearing` (whole degrees,
/// measured clockwise from north, toward which the wind blows); bearings
/// past 337 fall back to north.
pub open spec fn bearing_direction(bearing: int) -> WindDir {
    if bearing <= 22 {
        WindDir::N
    } else if bearing <= 67 {
        WindDir::NE
    } else if bearing <= 112 {
        WindDir::E
    } else if bearing <= 157 {
        WindDir::SE
    } else if bearing <= 202 {
        WindDir::S
    } else if bearing <= 247 {
        WindDir::SW
    } else if bearing <= 292 {
        WindDir::W
    } else if bearing <= 337 {
        WindDir::NW
    } else {
        WindDir::N
    }
}

/// The arrow direction for a whole-degree bearing the wind blows toward.
pub fn bearing_to_wind_dir(bearing: u32) -> (d: WindDir)
    ensures
        d == bearing_direction(bearing as int),
{
    match bearing {
        0..=22 => WindDir::N,
        23..=67 => WindDir::NE,
        68..=112 => WindDir::E,
        113..=157 => WindDir::SE,
        158..=202 => WindDir::S,
        203..=247 => WindDir::SW,
        248..=292 => WindDir::W,
        293..=337 => WindDir::NW,
        _ => WindDir::N,
    }
}

/// Direction numbers wrap every eight steps: two directions numbered `i`
/// and `i + 8` (as `from_index` numbers them) are the same direction.
pub proof fn law_from_index_periodic(i: int, a: WindDir, b: WindDir)
    requires
        i >= 0,
        wind_dir_index(a) == i % 8,
        wind_dir_index(b) == (i + 8) % 8,
    ensures
        a == b,
{
}

/// Each compass direction covers the 45-degree sector centred on it: for
/// bearings from 0 to 360 degrees, the direction is the bearing rounded to
/// the nearest multiple of 45 (half-way points rounding down), counted in
/// eighths of a turn.
pub proof fn law_bearing_sector(bearing: int)
    requires
        0 <= bearing <= 360,
    ensures
        wind_dir_index(bearing_direction(bearing)) == ((bearing + 22) / 45) % 8,
{
}

/// The WMO code table as published: 0 clear, 1 mainly clear, 2 partly
/// cloudy, 3 overcast, 45 and 48 fog, 51 to 57 drizzle, 61, 63 and 65 rain,
/// 66 and 67 freezing rain (sleet), 71 to 77 snow, 80 to 82 rain showers, 85
/// and 86 snow showers, 95 to 99 thunderstorm; every whole range maps to its
/// condition, and any other code reads as clear.
pub proof fn law_wmo_ranges(code: int)
    ensures
        code == 0 ==> wmo_condition(code) == Condition::Clear,
        code == 1 ==> wmo_condition(code) == Condition::MostlyClear,
        code == 2 ==> wmo_condition(code) == Condition::PartlyCloudy,
        code == 3 ==> wmo_condition(code) == Condition::Overcast,
        code == 45 || code == 48 ==> wmo_condition(code) == Condition::Fog,
        51 <= code <= 57 ==> wmo_condition(code) == Condition::Drizzle,
        code == 61 || code == 63 || code == 65 ==> wmo_condition(code) == Condition::Rain,
        code == 66 || code == 67 ==> wmo_condition(code) == Condition::Sleet,
        71 <= code <= 77 ==> wmo_condition(code) == Condition::Snow,
        80 <= code <= 82 ==> wmo_condition(code) == Condition::RainShowers,
        code == 85 || code == 86 ==> wmo_condition(code) == Condition::SnowShowers,
        95 <= code <= 99 ==> wmo_condition(code) == Condition::Thunderstorm,
        code < 0 || (4 <= code <= 44) || (46 <= code <= 47) || (49 <= code <= 50) || (58 <= code <= 60)
            || code == 62 || code == 64 || (68 <= code <= 70) || (78 <= code <= 79) || (83 <= code
            <= 84) || (87 <= code <= 94) || code >= 100 ==> wmo_condition(code) == Condition::Clear,
{
}

/// The compass rose, clockwise from north: N, NE, E, SE, S, SW, W, NW, each
/// drawn as the arrow pointing that way (U+2191 ↑, U+2197 ↗, U+2192 →,
/// U+2198 ↘, U+2193 ↓, U+2199 ↙, U+2190 ←, U+2196 ↖).
pub proof fn law_compass_arrows()
    ensures
        wind_dir_index(WindDir::N) == 0,
        wind_dir_index(WindDir::NE) == 1,
        wind_dir_index(WindDir::E) == 2,
        wind_dir_index(WindDir::SE) == 3,
        wind_dir_index(WindDir::S) == 4,
        wind_dir_index(WindDir::SW) == 5,
        wind_dir_index(WindDir::W) == 6,
        wind_dir_index(WindDir::NW) == 7,
        wind_arrow_glyph(WindDir::N) == seq!['\u{2191}'],
        wind_arrow_glyph(WindDir::NE) == seq!['\u{2197}'],
        wind_arrow_glyph(WindDir::E) == seq!['\u{2192}'],
        wind_arrow_glyph(WindDir::SE) == seq!['\u{2198}'],
        wind_arrow_glyph(WindDir::S) == seq!['\u{2193}'],
        wind_arrow_glyph(WindDir::SW) == seq!['\u{2199}'],
        wind_arrow_glyph(WindDir::W) == seq!['\u{2190}'],
        wind_arrow_glyph(WindDir::NW) == seq!['\u{2196}'],
{
}

/// The icons and their fixed backgrounds: sunny conditions on yellow and gold,
/// clouds on sky blue and grey, fog on light grey, drizzle on periwinkle, rain
/// and showers on blue and deep blue, snow on pale cyan and lavender, sleet on
/// ice blue, thunderstorms on dark purple; light text only on the three dark
/// backgrounds (rain, showers, thunderstorm).
pub proof fn law_condition_icons()
    ensures
        condition_glyph(Condition::Clear) == seq!['\u{2600}'] && condition_background(Condition::Clear) == (226u8, true),
        condition_glyph(Condition::MostlyClear) == seq!['\u{1F324}'] && condition_background(Condition::MostlyClear) == (220u8, true),
        condition_glyph(Condition::PartlyCloudy) == seq!['\u{26C5}'] && condition_background(Condition::PartlyCloudy) == (117u8, true),
        condition_glyph(Condition::Overcast) == seq!['\u{2601}'] && condition_background(Condition::Overcast) == (244u8, true),
        condition_glyph(Condition::Fog) == seq!['\u{1F32B}'] && condition_background(Condition::Fog) == (252u8, true),
        condition_glyph(Condition::Drizzle) == seq!['\u{1F326}'] && condition_background(Condition::Drizzle) == (111u8, true),
        condition_glyph(Condition::Rain) == seq!['\u{1F327}'] && condition_background(Condition::Rain) == (33u8, false),
        condition_glyph(Condition::RainShowers) == seq!['\u{26C6}'] && condition_background(Condition::RainShowers) == (27u8, false),
        condition_glyph(Condition::Snow) == seq!['\u{2744}'] && condition_background(Condition::Snow) == (195u8, true),
        condition_glyph(Condition::SnowShowers) == seq!['\u{1F328}'] && condition_background(Condition::SnowShowers) == (189u8, true),
        condition_glyph(Condition::Sleet) == seq!['\u{2603}'] && condition_background(Condition::Sleet) == (153u8, true),
        condition_glyph(Condition::Thunderstorm) == seq!['\u{26C8}'] && condition_background(Condition::Thunderstorm) == (91u8, false),
{
}

} // verus!
