//! The day patterns and decisions of the deterministic fake forecast
//! (`--fake`), which cycles through every condition so that colours and
//! icons can be checked without network access.
//!
//! Day patterns (by offset from today):
//!   0 – clear/mostly-clear day  (Clear, MostlyClear, PartlyCloudy)
//!   1 – rain event               (Drizzle → Rain → RainShowers → Thunderstorm)
//!   2 – foggy morning, overcast  (Fog, Overcast, PartlyCloudy)
//!   3 – winter / snow day        (Snow, SnowShowers, Sleet, Overcast)
//!   4 – rain event (same as 1)

use vstd::prelude::*;
use crate::weather::{Condition, WindDir, wind_dir_index};

verus! {

/// The hours the fake forecast fills, every three hours from 2h.
pub open spec fn fake_hours_spec() -> Seq<u8> {
    seq![2u8, 5, 8, 11, 14, 17, 20, 23]
}

/// The hours the fake forecast fills.
pub fn fake_hours() -> (r: Vec<u8>)
    ensures
        r@ == fake_hours_spec(),
{
    let r = vec![2u8, 5, 8, 11, 14, 17, 20, 23];
    assert(r@ =~= fake_hours_spec());
    r
}

/// What kind of day a fake day is.
#[derive(Debug, Clone, Copy, PartialEq, Eq, Structural)]
pub struct FakeDay {
    /// A rain event (every third day, from the second).
    pub rain: bool,
    /// A foggy morning (offset 2 modulo 5).
    pub fog: bool,
    /// A snow day, which is also cold (offset 3 modulo 5).
    pub snow: bool,
}

/// The kind of the day `day_offset` days from today.
pub fn fake_day(day_offset: usize) -> (d: FakeDay)
    ensures
        d.rain == (day_offset % 3 == 1),
        d.fog == (day_offset % 5 == 2),
        d.snow == (day_offset % 5 == 3),
{
    FakeDay { rain: day_offset % 3 == 1, fog: day_offset % 5 == 2, snow: day_offset % 5 == 3 }
}

/// The wind direction of hour `hour` on day `day_offset`: one step clockwise
/// every three hours, two steps every day.
pub fn fake_wind_dir(hour: u8, day_offset: usize) -> (d: WindDir)
    requires
        day_offset <= (usize::MAX - 255) / 2,
    ensures
        wind_dir_index(d) == (hour as int / 3 + day_offset * 2) % 8,
{
    WindDir::from_index((hour as usize / 3 + day_offset * 2) % 8)
}

/// How an hour's fake readings compare with the thresholds the conditions
/// are chosen by.
#[derive(Debug, Clone, Copy, PartialEq, Eq, Structural)]
pub struct FakeReadings {
    /// Precipitation band: 0 up to 0.5 mm, 1 up to 3, 2 up to 8, 3 up to 14, 4 above.
    pub rain_band: u8,
    /// Wind above 8 km/h.
    pub breezy: bool,
    /// Wind above 12 km/h.
    pub windy: bool,
    /// Wind above 13 km/h.
    pub gusty: bool,
    /// Temperature below -1 °C.
    pub freezing: bool,
}

/// The condition of a fake hour.
pub open spec fn fake_condition_spec(day: FakeDay, hour: u8, r: FakeReadings) -> Condition {
    if day.rain {
        if r.rain_band >= 4 {
            Condition::Thunderstorm
        } else if r.rain_band == 3 {
            Condition::RainShowers
        } else if r.rain_band == 2 {
            Condition::Rain
        } else if r.rain_band == 1 {
            Condition::Drizzle
        } else {
            Condition::Overcast
        }
    } else if day.fog {
        if hour < 11 {
            Condition::Fog
        } else if r.windy {
            Condition::PartlyCloudy
        } else {
            Condition::Overcast
        }
    } else if day.snow {
        if r.gusty {
            Condition::SnowShowers
        } else if r.freezing {
            Condition::Snow
        } else {
            Condition::Sleet
        }
    } else if r.gusty {
        Condition::PartlyCloudy
    } else if r.breezy {
        Condition::MostlyClear
    } else {
        Condition::Clear
    }
}

/// Chooses the condition of a fake hour: the rain ladder on rain days, fog
/// before 11h on foggy days, snow variants on snow days, clear skies varying
/// with the wind otherwise.
pub fn fake_condition(day: FakeDay, hour: u8, r: FakeReadings) -> (c: Condition)
    ensures
        c == fake_condition_spec(day, hour, r),
{
    if day.rain {
        if r.rain_band >= 4 {
            Condition::Thunderstorm
        } else if r.rain_band == 3 {
            Condition::RainShowers
        } else if r.rain_band == 2 {
            Condition::Rain
        } else if r.rain_band == 1 {
            Condition::Drizzle
        } else {
            Condition::Overcast
        }
    } else if day.fog {
        if hour < 11 {
            Condition::Fog
        } else if r.windy {
            Condition::PartlyCloudy
        } else {
            Condition::Overcast
        }
    } else if day.snow {
        if r.gusty {
            Condition::SnowShowers
        } else if r.freezing {
            Condition::Snow
        } else {
            Condition::Sleet
        }
    } else {
        // Clear day — vary with wind
        if r.gusty {
            Condition::PartlyCloudy
        } else if r.breezy {
            Condition::MostlyClear
        } else {
            Condition::Clear
        }
    }
}

/// The fake day patterns: a rain day climbs from overcast through drizzle,
/// rain and showers to thunder as precipitation rises; a fog day is foggy
/// before 11h; a snow day gives snow showers in gusts, snow when freezing,
/// sleet otherwise; any other day is clear, mostly clear in a breeze and
/// partly cloudy in gusts.
pub proof fn law_fake_patterns(day: FakeDay, hour: u8, r: FakeReadings)
    ensures
        day.rain ==> fake_condition_spec(day, hour, r) == if r.rain_band == 0 {
            Condition::Overcast
        } else if r.rain_band == 1 {
            Condition::Drizzle
        } else if r.rain_band == 2 {
            Condition::Rain
        } else if r.rain_band == 3 {
            Condition::RainShowers
        } else {
            Condition::Thunderstorm
        },
        !day.rain && day.fog && hour < 11 ==> fake_condition_spec(day, hour, r) == Condition::Fog,
        !day.rain && day.fog && hour >= 11 ==> fake_condition_spec(day, hour, r) == if r.windy {
            Condition::PartlyCloudy
        } else {
            Condition::Overcast
        },
        !day.rain && !day.fog && day.snow ==> fake_condition_spec(day, hour, r) == if r.gusty {
            Condition::SnowShowers
        } else if r.freezing {
            Condition::Snow
        } else {
            Condition::Sleet
        },
        !day.rain && !day.fog && !day.snow ==> fake_condition_spec(day, hour, r) == if r.gusty {
            Condition::PartlyCloudy
        } else if r.breezy {
            Condition::MostlyClear
        } else {
            Condition::Clear
        },
{
}

} // verus!
