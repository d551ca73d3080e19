//! The forecast table: fixed-width columns, day labels, the wind header and
//! the marker on the hour that has most recently passed.
//!
//! Column widths (display columns):
//!   gutter  day  hour  temp  wdir  wspd  wgst  pres  rain  icon
//!     2      8     4     8     5     6     6     7    10    ...

use vstd::prelude::*;
use crate::calendar::{CalendarDay, Weekday};
use crate::color::{
    background_sgr, colored_text, painted, push_background, push_reset, push_text_color,
    reset_sgr, text_sgr,
};
use crate::graph::{OutLine, Role, line_view, lines_view};
use crate::text::{
    escapes_closed, is_ascii_letter, is_wide_char, lemma_decimal_digits, lemma_decimal_len_bound,
    lemma_escape_width, lemma_plain_concat, lemma_plain_width, lemma_width_concat, plain_narrow,
    pow10, visible_width, center_aligned, chars_of, decimal, left_aligned, push_center_aligned, push_char,
    push_decimal, push_left_aligned, push_right_aligned, push_signed, push_str, right_aligned,
    same_text, signed_decimal, spaces,
};
use crate::weather::{Condition, WindDir, condition_background, condition_glyph, wind_arrow_glyph};

verus! {

/// What one forecast row shows, with every measurement already rounded or
/// formatted and every colour already chosen; `temp` is the measured
/// temperature the graph is drawn from.
pub struct RowCells<T> {
    /// Hour of the day, 0 to 23.
    pub hour: u8,
    /// The measured temperature.
    pub temp: T,
    /// The temperature rounded to whole degrees Celsius.
    pub temp_c: i32,
    /// Colour of the temperature cell: palette background and dark text.
    pub temp_paint: Option<(u8, bool)>,
    /// Where the wind blows.
    pub wind_dir: WindDir,
    /// Mean wind speed rounded to km/h.
    pub wind_kmh: u32,
    pub wind_paint: Option<(u8, bool)>,
    /// Gust speed rounded to km/h.
    pub gust_kmh: u32,
    pub gust_paint: Option<(u8, bool)>,
    /// Surface pressure rounded to hPa.
    pub pressure_hpa: u32,
    /// Precipitation in mm, written with one decimal.
    pub rain_mm: String,
    pub rain_paint: Option<(u8, bool)>,
    /// Sky condition.
    pub condition: Condition,
}

/// One forecast day: its date, its calendar label and its rows in time order.
pub struct DayRows<T> {
    /// Day number from the common era.
    pub date: i64,
    pub calendar: CalendarDay,
    pub rows: Vec<RowCells<T>>,
}

// ── Labels ─────────────────────────────────────────────────────────────────

/// Three-letter weekday label, French or English.
pub open spec fn weekday_abbr(w: Weekday, french: bool) -> Seq<char> {
    if french {
        match w {
            Weekday::Mon => "Lun"@,
            Weekday::Tue => "Mar"@,
            Weekday::Wed => "Mer"@,
            Weekday::Thu => "Jeu"@,
            Weekday::Fri => "Ven"@,
            Weekday::Sat => "Sam"@,
            Weekday::Sun => "Dim"@,
        }
    } else {
        match w {
            Weekday::Mon => "Mon"@,
            Weekday::Tue => "Tue"@,
            Weekday::Wed => "Wed"@,
            Weekday::Thu => "Thu"@,
            Weekday::Fri => "Fri"@,
            Weekday::Sat => "Sat"@,
            Weekday::Sun => "Sun"@,
        }
    }
}

/// Three-letter weekday label.
pub fn day_abbr(weekday: Weekday, french: bool) -> (r: &'static str)
    ensures
        r@ == weekday_abbr(weekday, french),
{
    if french {
        match weekday {
            Weekday::Mon => "Lun",
            Weekday::Tue => "Mar",
            Weekday::Wed => "Mer",
            Weekday::Thu => "Jeu",
            Weekday::Fri => "Ven",
            Weekday::Sat => "Sam",
            Weekday::Sun => "Dim",
        }
    } else {
        match weekday {
            Weekday::Mon => "Mon",
            Weekday::Tue => "Tue",
            Weekday::Wed => "Wed",
            Weekday::Thu => "Thu",
            Weekday::Fri => "Fri",
            Weekday::Sat => "Sat",
            Weekday::Sun => "Sun",
        }
    }
}

/// Whether the configured language is French (`"fr"`); any other value
/// displays English.
pub fn is_french(language: &str) -> (r: bool)
    ensures
        r == (language@ == "fr"@),
{
    same_text(language, "fr")
}

/// The two header lines above the wind columns, offset by the 27 columns of
/// gutter, day, hour, temperature and wind direction.
pub open spec fn wind_header(french: bool) -> (Seq<char>, Seq<char>) {
    let (top, avg, burst) = if french {
        ("Vitesse vent"@, " Moy. "@, "Rafale"@)
    } else {
        (" Wind speed "@, " Avg. "@, " Burst"@)
    };
    (spaces(27) + top, spaces(27) + avg + burst)
}

/// The two header lines above the wind columns.
pub fn wind_header_lines(french: bool) -> (r: (String, String))
    ensures
        r.0@ == wind_header(french).0,
        r.1@ == wind_header(french).1,
{
    let (top, avg_lbl, burst_lbl) = if french {
        ("Vitesse vent", " Moy. ", "Rafale")
    } else {
        (" Wind speed ", " Avg. ", " Burst")
    };
    let mut first = String::new();
    crate::text::push_spaces(&mut first, 27);
    push_str(&mut first, top);
    let mut second = String::new();
    crate::text::push_spaces(&mut second, 27);
    push_str(&mut second, avg_lbl);
    push_str(&mut second, burst_lbl);
    assert(first@ =~= wind_header(french).0);
    assert(second@ =~= wind_header(french).1);
    (first, second)
}

// ── Row columns ────────────────────────────────────────────────────────────

/// Current-position gutter: a marker arrow on the current row, blank elsewhere.
pub open spec fn gutter(current: bool) -> Seq<char> {
    if current {
        seq!['\u{1F81E}', ' ']
    } else {
        seq![' ', ' ']
    }
}

/// Day column: weekday and day of the month on a day's first row, blank
/// otherwise (8 columns).
pub open spec fn day_column(cal: CalendarDay, french: bool, show: bool) -> Seq<char> {
    if show {
        weekday_abbr(cal.weekday, french) + seq![' '] + right_aligned(decimal(cal.day as nat), 2)
            + seq![' ', ' ']
    } else {
        spaces(8)
    }
}

/// Hour column: `2h  `, `11h ` (4 columns, left-aligned).
pub open spec fn hour_column(hour: u8) -> Seq<char> {
    left_aligned(decimal(hour as nat).push('h'), 4)
}

/// `text` painted when a colour was chosen.
pub open spec fn paint_opt(text: Seq<char>, paint: Option<(u8, bool)>) -> Seq<char> {
    match paint {
        Some(p) => painted(text, p.0, p.1),
        None => text,
    }
}

/// Temperature column: right-aligned degrees, `°C` and two spaces, coloured.
pub open spec fn temp_column(temp_c: i32, paint: Option<(u8, bool)>) -> Seq<char> {
    paint_opt(right_aligned(signed_decimal(temp_c as int), 4) + seq!['°', 'C', ' ', ' '], paint)
}

/// Wind speed column: right-aligned km/h and two spaces, coloured.
pub open spec fn speed_column(kmh: u32, paint: Option<(u8, bool)>) -> Seq<char> {
    paint_opt(right_aligned(decimal(kmh as nat), 4) + seq![' ', ' '], paint)
}

/// Pressure column: right-aligned hPa (7 columns).
pub open spec fn pressure_column(hpa: u32) -> Seq<char> {
    right_aligned(decimal(hpa as nat), 7)
}

/// Precipitation column: right-aligned mm, `mm` and two spaces, coloured.
pub open spec fn rain_column(mm: Seq<char>, paint: Option<(u8, bool)>) -> Seq<char> {
    paint_opt(right_aligned(mm, 6) + seq!['m', 'm', ' ', ' '], paint)
}

/// Condition icon on its fixed semantic background.
pub open spec fn icon_column(c: Condition) -> Seq<char> {
    let (bg, dark) = condition_background(c);
    seq![' ', ' ', ' '] + background_sgr(bg) + text_sgr(dark) + seq![' '] + condition_glyph(c)
        + seq![' '] + reset_sgr()
}

/// The text of one forecast row.
pub open spec fn row_text<T>(
    row: RowCells<T>,
    cal: CalendarDay,
    french: bool,
    show_day: bool,
    current: bool,
) -> Seq<char> {
    gutter(current) + day_column(cal, french, show_day) + hour_column(row.hour) + temp_column(
        row.temp_c,
        row.temp_paint,
    ) + center_aligned(wind_arrow_glyph(row.wind_dir), 5) + speed_column(
        row.wind_kmh,
        row.wind_paint,
    ) + speed_column(row.gust_kmh, row.gust_paint) + pressure_column(row.pressure_hpa)
        + rain_column(row.rain_mm@, row.rain_paint) + icon_column(row.condition)
}

fn push_gutter(s: &mut String, current: bool)
    ensures
        final(s)@ == old(s)@ + gutter(current),
{
    if current {
        push_char(s, '\u{1F81E}');
        push_char(s, ' ');
    } else {
        push_char(s, ' ');
        push_char(s, ' ');
    }
    assert(final(s)@ =~= old(s)@ + gutter(current));
}

fn push_day_column(s: &mut String, cal: &CalendarDay, french: bool, show: bool)
    ensures
        final(s)@ == old(s)@ + day_column(*cal, french, show),
{
    if show {
        push_str(s, day_abbr(cal.weekday, french));
        push_char(s, ' ');
        let mut num = String::new();
        push_decimal(&mut num, cal.day as u64);
        push_right_aligned(s, num.as_str(), 2);
        push_char(s, ' ');
        push_char(s, ' ');
        assert(num@ =~= decimal(cal.day as nat));
    } else {
        crate::text::push_spaces(s, 8);
    }
    assert(final(s)@ =~= old(s)@ + day_column(*cal, french, show));
}

fn push_hour_column(s: &mut String, hour: u8)
    ensures
        final(s)@ == old(s)@ + hour_column(hour),
{
    let mut h = String::new();
    push_decimal(&mut h, hour as u64);
    push_char(&mut h, 'h');
    push_left_aligned(s, h.as_str(), 4);
    assert(h@ =~= decimal(hour as nat).push('h'));
}

fn push_painted(s: &mut String, text: &str, paint: Option<(u8, bool)>)
    ensures
        final(s)@ == old(s)@ + paint_opt(text@, paint),
{
    let cell = colored_text(text, paint);
    push_str(s, cell.as_str());
}

fn push_temp_column(s: &mut String, temp_c: i32, paint: Option<(u8, bool)>)
    ensures
        final(s)@ == old(s)@ + temp_column(temp_c, paint),
{
    let mut num = String::new();
    push_signed(&mut num, temp_c as i64);
    let mut cell = String::new();
    push_right_aligned(&mut cell, num.as_str(), 4);
    push_char(&mut cell, '°');
    push_char(&mut cell, 'C');
    push_char(&mut cell, ' ');
    push_char(&mut cell, ' ');
    assert(num@ =~= signed_decimal(temp_c as int));
    assert(cell@ =~= right_aligned(signed_decimal(temp_c as int), 4) + seq!['°', 'C', ' ', ' ']);
    push_painted(s, cell.as_str(), paint);
}

fn push_speed_column(s: &mut String, kmh: u32, paint: Option<(u8, bool)>)
    ensures
        final(s)@ == old(s)@ + speed_column(kmh, paint),
{
    let mut num = String::new();
    push_decimal(&mut num, kmh as u64);
    let mut cell = String::new();
    push_right_aligned(&mut cell, num.as_str(), 4);
    push_char(&mut cell, ' ');
    push_char(&mut cell, ' ');
    assert(num@ =~= decimal(kmh as nat));
    assert(cell@ =~= right_aligned(decimal(kmh as nat), 4) + seq![' ', ' ']);
    push_painted(s, cell.as_str(), paint);
}

fn push_pressure_column(s: &mut String, hpa: u32)
    ensures
        final(s)@ == old(s)@ + pressure_column(hpa),
{
    let mut num = String::new();
    push_decimal(&mut num, hpa as u64);
    assert(num@ =~= decimal(hpa as nat));
    push_right_aligned(s, num.as_str(), 7);
}

fn push_rain_column(s: &mut String, mm: &str, paint: Option<(u8, bool)>)
    ensures
        final(s)@ == old(s)@ + rain_column(mm@, paint),
{
    let mut cell = String::new();
    push_right_aligned(&mut cell, mm, 6);
    push_char(&mut cell, 'm');
    push_char(&mut cell, 'm');
    push_char(&mut cell, ' ');
    push_char(&mut cell, ' ');
    assert(cell@ =~= right_aligned(mm@, 6) + seq!['m', 'm', ' ', ' ']);
    push_painted(s, cell.as_str(), paint);
}

fn push_icon_column(s: &mut String, c: Condition)
    ensures
        final(s)@ == old(s)@ + icon_column(c),
{
    let (bg, dark) = c.bg_color();
    push_char(s, ' ');
    push_char(s, ' ');
    push_char(s, ' ');
    push_background(s, bg);
    push_text_color(s, dark);
    push_char(s, ' ');
    push_str(s, c.icon());
    push_char(s, ' ');
    push_reset(s);
    assert(final(s)@ =~= old(s)@ + icon_column(c));
}

/// Formats one forecast row.
pub fn format_row<T>(
    row: &RowCells<T>,
    cal: &CalendarDay,
    show_day: bool,
    french: bool,
    is_current: bool,
) -> (r: String)
    ensures
        r@ == row_text(*row, *cal, french, show_day, is_current),
{
    let mut r = String::new();
    push_gutter(&mut r, is_current);
    push_day_column(&mut r, cal, french, show_day);
    push_hour_column(&mut r, row.hour);
    push_temp_column(&mut r, row.temp_c, row.temp_paint);
    push_center_aligned(&mut r, row.wind_dir.arrow(), 5);
    push_speed_column(&mut r, row.wind_kmh, row.wind_paint);
    push_speed_column(&mut r, row.gust_kmh, row.gust_paint);
    push_pressure_column(&mut r, row.pressure_hpa);
    push_rain_column(&mut r, row.rain_mm.as_str(), row.rain_paint);
    push_icon_column(&mut r, row.condition);
    assert(r@ =~= row_text(*row, *cal, french, show_day, is_current));
    r
}

// ── Column alignment ───────────────────────────────────────────────────────

/// Values that fit their columns: at most two-digit hours and days of the
/// month, temperatures from -999 to 9999 °C, speeds up to 9999 km/h,
/// pressures up to 9999999 hPa, and a precipitation text of at most six
/// plain characters.
pub open spec fn fits_columns<T>(row: RowCells<T>, cal: CalendarDay) -> bool {
    &&& row.hour < 100
    &&& cal.day < 100
    &&& -999 <= row.temp_c <= 9999
    &&& row.wind_kmh <= 9999
    &&& row.gust_kmh <= 9999
    &&& row.pressure_hpa <= 9_999_999
    &&& row.rain_mm@.len() <= 6
    &&& plain_narrow(row.rain_mm@)
}

/// Joins two pieces of text whose escapes are closed.
proof fn lemma_join(a: Seq<char>, b: Seq<char>)
    requires
        escapes_closed(a),
        escapes_closed(b),
    ensures
        visible_width(a + b) == visible_width(a) + visible_width(b),
        escapes_closed(a + b),
{
    lemma_width_concat(a, b);
}

/// Plain narrow text is as wide as it is long.
proof fn lemma_plain(s: Seq<char>)
    requires
        plain_narrow(s),
    ensures
        visible_width(s) == s.len(),
        escapes_closed(s),
{
    lemma_plain_width(s);
}

/// Aligning plain narrow text keeps it plain and narrow, at the field width.
proof fn lemma_aligned_plain(text: Seq<char>, width: nat)
    requires
        plain_narrow(text),
        text.len() <= width,
    ensures
        plain_narrow(right_aligned(text, width)),
        right_aligned(text, width).len() == width,
        plain_narrow(left_aligned(text, width)),
        left_aligned(text, width).len() == width,
        plain_narrow(center_aligned(text, width)),
        center_aligned(text, width).len() == width,
{
    if text.len() < width {
        let pad = (width - text.len()) as nat;
        crate::text::lemma_spaces_plain(pad);
        crate::text::lemma_spaces_plain(pad / 2);
        crate::text::lemma_spaces_plain((pad - pad / 2) as nat);
        lemma_plain_concat(spaces(pad), text);
        lemma_plain_concat(text, spaces(pad));
        lemma_plain_concat(spaces(pad / 2), text);
        lemma_plain_concat(spaces(pad / 2) + text, spaces((pad - pad / 2) as nat));
    }
}

/// The colour escapes take no column, and close.
proof fn lemma_sgr_invisible(idx: u8, dark: bool)
    ensures
        visible_width(background_sgr(idx)) == 0,
        escapes_closed(background_sgr(idx)),
        visible_width(text_sgr(dark)) == 0,
        escapes_closed(text_sgr(dark)),
        visible_width(reset_sgr()) == 0,
        escapes_closed(reset_sgr()),
{
    lemma_decimal_digits(idx as nat);
    let d = decimal(idx as nat);
    let b1 = seq!['[', '4', '8', ';', '5', ';'] + d;
    assert forall|i: int| 0 <= i < b1.len() implies !is_ascii_letter(#[trigger] b1[i]) by {
        if i >= 6 {
            assert(b1[i] == d[i - 6]);
        }
    }
    lemma_escape_width(b1, 'm');
    assert(background_sgr(idx) =~= seq!['\x1b'] + b1.push('m'));
    let b2 = if dark {
        seq!['[', '3', '0']
    } else {
        seq!['[', '9', '7']
    };
    lemma_escape_width(b2, 'm');
    assert(text_sgr(dark) =~= seq!['\x1b'] + b2.push('m'));
    let b3 = seq!['[', '0'];
    lemma_escape_width(b3, 'm');
    assert(reset_sgr() =~= seq!['\x1b'] + b3.push('m'));
}

/// Painting keeps the width of a text.
proof fn lemma_paint_width(text: Seq<char>, paint: Option<(u8, bool)>)
    requires
        escapes_closed(text),
    ensures
        visible_width(paint_opt(text, paint)) == visible_width(text),
        escapes_closed(paint_opt(text, paint)),
{
    if let Some(p) = paint {
        lemma_sgr_invisible(p.0, p.1);
        lemma_join(background_sgr(p.0), text_sgr(p.1));
        lemma_join(background_sgr(p.0) + text_sgr(p.1), text);
        lemma_join(background_sgr(p.0) + text_sgr(p.1) + text, reset_sgr());
    }
}

proof fn lemma_pow10_values()
    ensures
        pow10(2) == 100,
        pow10(3) == 1000,
        pow10(4) == 10000,
        pow10(7) == 10_000_000,
{
    assert(pow10(0) == 1);
    assert(pow10(1) == 10);
    assert(pow10(2) == 100);
    assert(pow10(3) == 1000);
    assert(pow10(4) == 10000);
    assert(pow10(5) == 100000);
    assert(pow10(6) == 1000000);
    assert(pow10(7) == 10000000);
}

/// A right-aligned number followed by a plain suffix: plain, `width` plus the
/// suffix long.
proof fn lemma_number_cell(n: nat, digits: nat, width: nat, suffix: Seq<char>)
    requires
        1 <= digits <= width,
        n < pow10(digits),
        plain_narrow(suffix),
    ensures
        plain_narrow(right_aligned(decimal(n), width) + suffix),
        (right_aligned(decimal(n), width) + suffix).len() == width + suffix.len(),
{
    lemma_decimal_digits(n);
    lemma_decimal_len_bound(n, digits);
    lemma_aligned_plain(decimal(n), width);
    lemma_plain_concat(right_aligned(decimal(n), width), suffix);
}

/// The day column is plain and 8 columns wide.
proof fn lemma_day_column(cal: CalendarDay, french: bool, show: bool)
    requires
        cal.day < 100,
    ensures
        plain_narrow(day_column(cal, french, show)),
        day_column(cal, french, show).len() == 8,
{
    if show {
        let abbr = weekday_abbr(cal.weekday, french);
        reveal_strlit("Lun");
        reveal_strlit("Mar");
        reveal_strlit("Mer");
        reveal_strlit("Jeu");
        reveal_strlit("Ven");
        reveal_strlit("Sam");
        reveal_strlit("Dim");
        reveal_strlit("Mon");
        reveal_strlit("Tue");
        reveal_strlit("Wed");
        reveal_strlit("Thu");
        reveal_strlit("Fri");
        reveal_strlit("Sat");
        reveal_strlit("Sun");
        assert(plain_narrow(abbr) && abbr.len() == 3);
        lemma_pow10_values();
        lemma_number_cell(cal.day as nat, 2, 2, seq![' ', ' ']);
        lemma_plain_concat(abbr, seq![' ']);
        lemma_plain_concat(abbr + seq![' '], right_aligned(decimal(cal.day as nat), 2) + seq![' ', ' ']);
        assert(day_column(cal, french, show) =~= abbr + seq![' '] + (right_aligned(
            decimal(cal.day as nat),
            2,
        ) + seq![' ', ' ']));
    } else {
        crate::text::lemma_spaces_plain(8);
    }
}

/// The icon cell is 7 columns wide: 3 spaces, then the two-column glyph
/// between two spaces, on a coloured background.
proof fn lemma_icon_column(c: Condition)
    ensures
        visible_width(icon_column(c)) == 7,
        escapes_closed(icon_column(c)),
{
    let (bg, dark) = condition_background(c);
    let glyph = condition_glyph(c);
    assert(glyph.len() == 1 && glyph[0] != '\x1b' && is_wide_char(glyph[0]));
    assert(glyph.drop_first() =~= Seq::<char>::empty());
    assert(visible_width(glyph.drop_first()) == visible_width(Seq::<char>::empty()));
    assert(escapes_closed(glyph.drop_first()) == escapes_closed(Seq::<char>::empty()));
    assert(visible_width(glyph) == 2);
    assert(escapes_closed(glyph));
    lemma_sgr_invisible(bg, dark);
    lemma_plain(seq![' ', ' ', ' ']);
    lemma_plain(seq![' ']);
    let a = seq![' ', ' ', ' '];
    lemma_join(a, background_sgr(bg));
    lemma_join(a + background_sgr(bg), text_sgr(dark));
    lemma_join(a + background_sgr(bg) + text_sgr(dark), seq![' ']);
    lemma_join(a + background_sgr(bg) + text_sgr(dark) + seq![' '], glyph);
    lemma_join(a + background_sgr(bg) + text_sgr(dark) + seq![' '] + glyph, seq![' ']);
    lemma_join(a + background_sgr(bg) + text_sgr(dark) + seq![' '] + glyph + seq![' '], reset_sgr());
}

/// Every forecast row whose values fit their columns is 63 columns wide:
/// gutter 2, day 8, hour 4, temperature 8, wind direction 5, wind speed 6,
/// gust 6, pressure 7, precipitation 10, then the icon cell (3 spaces and a
/// two-column glyph between two spaces). Colours take no column, so the
/// columns line up whatever is coloured.
pub proof fn law_row_width<T>(row: RowCells<T>, cal: CalendarDay, french: bool, show_day: bool, current: bool)
    requires
        fits_columns(row, cal),
    ensures
        visible_width(row_text(row, cal, french, show_day, current)) == 63,
        escapes_closed(row_text(row, cal, french, show_day, current)),
{
    lemma_pow10_values();
    // Gutter.
    let g = gutter(current);
    if current {
        lemma_plain_concat(seq!['\u{1F81E}'], seq![' ']);
        assert(seq!['\u{1F81E}'] + seq![' '] =~= g);
    }
    lemma_plain(g);
    // Day.
    let dc = day_column(cal, french, show_day);
    lemma_day_column(cal, french, show_day);
    lemma_plain(dc);
    // Hour.
    lemma_decimal_digits(row.hour as nat);
    lemma_decimal_len_bound(row.hour as nat, 2);
    let hh = decimal(row.hour as nat).push('h');
    lemma_plain_concat(decimal(row.hour as nat), seq!['h']);
    assert(decimal(row.hour as nat) + seq!['h'] =~= hh);
    lemma_aligned_plain(hh, 4);
    let hc = hour_column(row.hour);
    lemma_plain(hc);
    // Temperature.
    let sd = signed_decimal(row.temp_c as int);
    if row.temp_c < 0 {
        lemma_decimal_digits((-row.temp_c) as nat);
        lemma_decimal_len_bound((-row.temp_c) as nat, 3);
        lemma_plain_concat(seq!['-'], decimal((-row.temp_c) as nat));
    } else {
        lemma_decimal_digits(row.temp_c as nat);
        lemma_decimal_len_bound(row.temp_c as nat, 4);
    }
    assert(plain_narrow(sd) && sd.len() <= 4);
    lemma_aligned_plain(sd, 4);
    let tt = right_aligned(sd, 4) + seq!['°', 'C', ' ', ' '];
    lemma_plain_concat(right_aligned(sd, 4), seq!['°', 'C', ' ', ' ']);
    lemma_plain(tt);
    lemma_paint_width(tt, row.temp_paint);
    let tc = temp_column(row.temp_c, row.temp_paint);
    // Wind direction.
    let arrow = wind_arrow_glyph(row.wind_dir);
    assert(plain_narrow(arrow) && arrow.len() == 1);
    lemma_aligned_plain(arrow, 5);
    let wc = center_aligned(arrow, 5);
    lemma_plain(wc);
    // Speeds.
    lemma_number_cell(row.wind_kmh as nat, 4, 4, seq![' ', ' ']);
    let w1 = right_aligned(decimal(row.wind_kmh as nat), 4) + seq![' ', ' '];
    lemma_plain(w1);
    lemma_paint_width(w1, row.wind_paint);
    let s1 = speed_column(row.wind_kmh, row.wind_paint);
    lemma_number_cell(row.gust_kmh as nat, 4, 4, seq![' ', ' ']);
    let w2 = right_aligned(decimal(row.gust_kmh as nat), 4) + seq![' ', ' '];
    lemma_plain(w2);
    lemma_paint_width(w2, row.gust_paint);
    let s2 = speed_column(row.gust_kmh, row.gust_paint);
    // Pressure.
    lemma_number_cell(row.pressure_hpa as nat, 7, 7, Seq::empty());
    assert(right_aligned(decimal(row.pressure_hpa as nat), 7) + Seq::<char>::empty() =~= pressure_column(row.pressure_hpa));
    let pc = pressure_column(row.pressure_hpa);
    lemma_plain(pc);
    // Precipitation.
    lemma_aligned_plain(row.rain_mm@, 6);
    let rr = right_aligned(row.rain_mm@, 6) + seq!['m', 'm', ' ', ' '];
    lemma_plain_concat(right_aligned(row.rain_mm@, 6), seq!['m', 'm', ' ', ' ']);
    lemma_plain(rr);
    lemma_paint_width(rr, row.rain_paint);
    let rc = rain_column(row.rain_mm@, row.rain_paint);
    // Icon.
    lemma_icon_column(row.condition);
    let ic = icon_column(row.condition);
    // The whole row.
    lemma_join(g, dc);
    lemma_join(g + dc, hc);
    lemma_join(g + dc + hc, tc);
    lemma_join(g + dc + hc + tc, wc);
    lemma_join(g + dc + hc + tc + wc, s1);
    lemma_join(g + dc + hc + tc + wc + s1, s2);
    lemma_join(g + dc + hc + tc + wc + s1 + s2, pc);
    lemma_join(g + dc + hc + tc + wc + s1 + s2 + pc, rc);
    lemma_join(g + dc + hc + tc + wc + s1 + s2 + pc + rc, ic);
}

// ── The current hour ───────────────────────────────────────────────────────

/// Index of the first day dated `today`.
pub open spec fn day_index_of<T>(days: Seq<DayRows<T>>, today: int) -> Option<int>
    decreases days.len(),
{
    if days.len() == 0 {
        None
    } else {
        match day_index_of(days.drop_last(), today) {
            Some(i) => Some(i),
            None => if days.last().date == today {
                Some(days.len() - 1)
            } else {
                None
            },
        }
    }
}

/// The latest hour among `rows` that is not after `now`.
pub open spec fn latest_hour_until<T>(rows: Seq<RowCells<T>>, now: int) -> Option<u8>
    decreases rows.len(),
{
    if rows.len() == 0 {
        None
    } else {
        let rest = latest_hour_until(rows.drop_last(), now);
        let h = rows.last().hour;
        if h <= now {
            match rest {
                Some(m) => Some(if h > m { h } else { m }),
                None => Some(h),
            }
        } else {
            rest
        }
    }
}

/// The row marked as current: today's most recent displayed hour that has
/// already passed.
pub open spec fn current_slot<T>(days: Seq<DayRows<T>>, today: int, now_hour: int) -> Option<(i64, u8)> {
    match day_index_of(days, today) {
        Some(i) => match latest_hour_until(days[i].rows@, now_hour) {
            Some(h) => Some((today as i64, h)),
            None => None,
        },
        None => None,
    }
}

/// What `latest_hour_until` finds: a row hour not after `now`, and no later one.
pub proof fn lemma_latest_hour<T>(rows: Seq<RowCells<T>>, now: int)
    ensures
        latest_hour_until(rows, now) matches Some(h) ==> h <= now && exists|j: int|
            0 <= j < rows.len() && #[trigger] rows[j].hour == h,
        latest_hour_until(rows, now) is None ==> forall|j: int|
            0 <= j < rows.len() ==> #[trigger] rows[j].hour > now,
        forall|j: int|
            0 <= j < rows.len() && #[trigger] rows[j].hour <= now ==> (latest_hour_until(rows, now) matches Some(h) && rows[j].hour <= h),
    decreases rows.len(),
{
    if rows.len() > 0 {
        let p = rows.drop_last();
        lemma_latest_hour(p, now);
        assert forall|j: int| 0 <= j < rows.len() - 1 implies #[trigger] rows[j].hour == p[j].hour by {}
        if let Some(h) = latest_hour_until(rows, now) {
            if latest_hour_until(p, now) is Some && h != rows.last().hour {
                let j = choose|j: int| 0 <= j < p.len() && #[trigger] p[j].hour == h;
                assert(rows[j].hour == h);
            } else {
                assert(rows[rows.len() - 1].hour == h);
            }
        }
    }
}

fn latest_hour<T>(rows: &Vec<RowCells<T>>, now: u8) -> (r: Option<u8>)
    ensures
        r == latest_hour_until(rows@, now as int),
{
    let mut best: Option<u8> = None;
    let mut j: usize = 0;
    while j < rows.len()
        invariant
            j <= rows.len(),
            best == latest_hour_until(rows@.take(j as int), now as int),
        decreases rows.len() - j,
    {
        let h = rows[j].hour;
        assert(rows@.take(j + 1).drop_last() =~= rows@.take(j as int));
        if h <= now {
            best = match best {
                Some(m) => Some(if h > m { h } else { m }),
                None => Some(h),
            };
        }
        j = j + 1;
    }
    assert(rows@.take(rows.len() as int) =~= rows@);
    best
}

/// The current row: today's latest displayed hour not after `now_hour`.
pub fn find_current<T>(days: &Vec<DayRows<T>>, today: i64, now_hour: u8) -> (r: Option<(i64, u8)>)
    ensures
        r == current_slot(days@, today as int, now_hour as int),
{
    let mut i: usize = 0;
    while i < days.len()
        invariant
            i <= days.len(),
            day_index_of(days@.take(i as int), today as int) is None,
        decreases days.len() - i,
    {
        assert(days@.take(i + 1).drop_last() =~= days@.take(i as int));
        if days[i].date == today {
            proof {
                lemma_day_index_prefix(days@, today as int, i + 1);
            }
            return match latest_hour(&days[i].rows, now_hour) {
                Some(h) => Some((today, h)),
                None => None,
            };
        }
        i = i + 1;
    }
    assert(days@.take(days.len() as int) =~= days@);
    None
}

/// A day found in a prefix is the day found in the whole list.
proof fn lemma_day_index_prefix<T>(days: Seq<DayRows<T>>, today: int, n: int)
    requires
        0 <= n <= days.len(),
        day_index_of(days.take(n), today) is Some,
    ensures
        day_index_of(days, today) == day_index_of(days.take(n), today),
    decreases days.len(),
{
    if days.len() > n {
        assert(days.drop_last().take(n) =~= days.take(n));
        lemma_day_index_prefix(days.drop_last(), today, n);
    } else {
        assert(days.take(n) =~= days);
    }
}

// ── The whole table ────────────────────────────────────────────────────────

/// `s` in display order: as is, or last first.
pub open spec fn ordered<A>(s: Seq<A>, reverse: bool) -> Seq<A> {
    if reverse {
        Seq::new(s.len(), |i: int| s[s.len() - 1 - i])
    } else {
        s
    }
}

/// A blank line between two days.
pub open spec fn separator_view<T>() -> (Seq<char>, Option<T>, Role) {
    (Seq::empty(), None, Role::Body)
}

/// The rows of one day, in display order.
pub open spec fn day_block<T>(
    day: DayRows<T>,
    french: bool,
    reverse: bool,
    current: Option<(i64, u8)>,
) -> Seq<(Seq<char>, Option<T>, Role)> {
    let rows = ordered(day.rows@, reverse);
    Seq::new(
        rows.len(),
        |j: int|
            (
                row_text(rows[j], day.calendar, french, j == 0, current == Some((day.date, rows[j].hour))),
                Some(rows[j].temp),
                Role::Body,
            ),
    )
}

/// The days, in the given order, separated by blank lines.
pub open spec fn body_lines<T>(
    days: Seq<DayRows<T>>,
    french: bool,
    reverse: bool,
    current: Option<(i64, u8)>,
) -> Seq<(Seq<char>, Option<T>, Role)>
    decreases days.len(),
{
    if days.len() == 0 {
        Seq::empty()
    } else {
        let before = body_lines(days.drop_last(), french, reverse, current);
        let sep = if days.len() > 1 {
            seq![separator_view::<T>()]
        } else {
            Seq::empty()
        };
        before + sep + day_block(days.last(), french, reverse, current)
    }
}

/// The full table: the location line when given, the two header lines, then
/// the days (furthest first when `reverse`), each day's hours in the same order.
pub open spec fn forecast_table<T>(
    days: Seq<DayRows<T>>,
    today: int,
    now_hour: int,
    french: bool,
    reverse: bool,
    location: Option<Seq<char>>,
) -> Seq<(Seq<char>, Option<T>, Role)> {
    let current = current_slot(days, today, now_hour);
    let head = match location {
        Some(name) => seq![(name, None, Role::Plain)],
        None => Seq::empty(),
    };
    let (h1, h2) = wind_header(french);
    head + seq![(h1, None, Role::GraphTitle), (h2, None, Role::GraphAxis)] + body_lines(
        ordered(days, reverse),
        french,
        reverse,
        current,
    )
}

/// Builds every output line of the forecast table, so that the temperature
/// graph can then be laid out in the right margin, aligned with the rows.
#[verifier::rlimit(40)]
pub fn forecast_lines<T: Copy>(
    days: &Vec<DayRows<T>>,
    today: i64,
    now_hour: u8,
    french: bool,
    reverse: bool,
    location: Option<&str>,
) -> (out: Vec<OutLine<T>>)
    ensures
        lines_view(out@) == forecast_table(
            days@,
            today as int,
            now_hour as int,
            french,
            reverse,
            match location {
                Some(l) => Some(l@),
                None => None,
            },
        ),
{
    let current = find_current(days, today, now_hour);
    let mut out: Vec<OutLine<T>> = Vec::new();
    match location {
        Some(name) => {
            let mut text = String::new();
            push_str(&mut text, name);
            out.push(OutLine { text, temp: None, role: Role::Plain });
        },
        None => {},
    }
    let (h1, h2) = wind_header_lines(french);
    out.push(OutLine { text: h1, temp: None, role: Role::GraphTitle });
    out.push(OutLine { text: h2, temp: None, role: Role::GraphAxis });
    let ghost head = lines_view(out@);
    let ghost od = ordered(days@, reverse);
    assert(head =~= forecast_table(
        days@,
        today as int,
        now_hour as int,
        french,
        reverse,
        match location {
            Some(l) => Some(l@),
            None => None,
        },
    ).take(head.len() as int));
    let n = days.len();
    let mut idx: usize = 0;
    while idx < n
        invariant
            n == days.len(),
            idx <= n,
            od == ordered(days@, reverse),
            current == current_slot(days@, today as int, now_hour as int),
            lines_view(out@) == head + body_lines(od.take(idx as int), french, reverse, current),
        decreases n - idx,
    {
        let di = if reverse { n - 1 - idx } else { idx };
        let day = &days[di];
        assert(od[idx as int] == days@[di as int]);
        assert(od.take(idx + 1).drop_last() =~= od.take(idx as int));
        let ghost before = lines_view(out@);
        if idx > 0 {
            out.push(OutLine { text: String::new(), temp: None, role: Role::Body });
            assert(lines_view(out@) =~= before.push(separator_view::<T>()));
        }
        let ghost start = lines_view(out@);
        let ghost block = day_block(*day, french, reverse, current);
        assert(start =~= before + if idx > 0 {
            seq![separator_view::<T>()]
        } else {
            Seq::empty()
        });
        let m = day.rows.len();
        let mut j: usize = 0;
        while j < m
            invariant
                m == day.rows.len(),
                j <= m,
                block == day_block(*day, french, reverse, current),
                block.len() == m,
                lines_view(out@) == start + block.take(j as int),
            decreases m - j,
        {
            let ri = if reverse { m - 1 - j } else { j };
            let row = &day.rows[ri];
            let is_current = match current {
                Some(c) => c.0 == day.date && c.1 == row.hour,
                None => false,
            };
            let text = format_row(row, &day.calendar, j == 0, french, is_current);
            let ghost prev = lines_view(out@);
            out.push(OutLine { text, temp: Some(row.temp), role: Role::Body });
            assert(ordered(day.rows@, reverse)[j as int] == day.rows@[ri as int]);
            assert(lines_view(out@) =~= prev.push(block[j as int]));
            assert(block.take(j + 1) =~= block.take(j as int).push(block[j as int]));
            j = j + 1;
        }
        assert(block.take(m as int) =~= block);
        assert(od.take(idx + 1).last() == od[idx as int]);
        idx = idx + 1;
    }
    assert(od.take(n as int) =~= od);
    out
}

/// The weekday labels: Lun, Mar, Mer, Jeu, Ven, Sam, Dim in French and
/// Mon, Tue, Wed, Thu, Fri, Sat, Sun in English, Monday to Sunday.
pub proof fn law_weekday_labels()
    ensures
        weekday_abbr(Weekday::Mon, true) == "Lun"@,
        weekday_abbr(Weekday::Tue, true) == "Mar"@,
        weekday_abbr(Weekday::Wed, true) == "Mer"@,
        weekday_abbr(Weekday::Thu, true) == "Jeu"@,
        weekday_abbr(Weekday::Fri, true) == "Ven"@,
        weekday_abbr(Weekday::Sat, true) == "Sam"@,
        weekday_abbr(Weekday::Sun, true) == "Dim"@,
        weekday_abbr(Weekday::Mon, false) == "Mon"@,
        weekday_abbr(Weekday::Tue, false) == "Tue"@,
        weekday_abbr(Weekday::Wed, false) == "Wed"@,
        weekday_abbr(Weekday::Thu, false) == "Thu"@,
        weekday_abbr(Weekday::Fri, false) == "Fri"@,
        weekday_abbr(Weekday::Sat, false) == "Sat"@,
        weekday_abbr(Weekday::Sun, false) == "Sun"@,
{
}

} // verus!
