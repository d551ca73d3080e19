//! Assembling a forecast from several weather models: hourly time slots,
//! the model cascade (AROME for days 1-2, ARPEGE for days 3-4, best match
//! beyond), and the grouping of the merged hours into displayed days.
//!
//! A time slot is coded as one unsigned integer that orders exactly as the
//! date-time it stands for: minutes counted from a fixed origin far before
//! any date `chrono` can hold.

use std::collections::BTreeMap;
use chrono::{Datelike, Timelike};
use vstd::prelude::*;
use vstd::std_specs::btree::{spec_btree_map_iter, increasing_seq};
use vstd::std_specs::iter::IteratorSpec;
use vstd::std_specs::cmp::OrdSpec;
use vstd::arithmetic::div_mod::{lemma_fundamental_div_mod_converse, lemma_div_is_ordered};

verus! {

// ── Time slots ──────────────────────────────────────────────────────────────

/// Offset added to a day number so that every `i32` day codes to a natural number.
pub open spec fn day_offset() -> int {
    0x8000_0000
}

/// The code of minute `minute` of hour `hour` on day `day` (days counted as
/// `chrono` counts them from the common era).
pub open spec fn slot_code(day: int, hour: int, minute: int) -> int {
    (day + day_offset()) * 1440 + hour * 60 + minute
}

/// The day a slot code falls on.
pub open spec fn code_day(code: int) -> int {
    code / 1440 - day_offset()
}

/// The hour of the day a slot code falls in.
pub open spec fn code_hour(code: int) -> int {
    (code % 1440) / 60
}

/// Decoding a slot code gives back its day and hour.
pub proof fn lemma_slot_code_parts(day: int, hour: int, minute: int)
    requires
        day + day_offset() >= 0,
        0 <= hour < 24,
        0 <= minute < 60,
    ensures
        code_day(slot_code(day, hour, minute)) == day,
        code_hour(slot_code(day, hour, minute)) == hour,
        slot_code(day, hour, minute) >= 0,
{
    let k = slot_code(day, hour, minute);
    assert(0 <= hour * 60 + minute < 1440) by (nonlinear_arith)
        requires
            0 <= hour < 24,
            0 <= minute < 60,
    ;
    assert((day + day_offset()) * 1440 >= 0) by (nonlinear_arith)
        requires
            day + day_offset() >= 0,
    ;
    lemma_fundamental_div_mod_converse(k, 1440, day + day_offset(), hour * 60 + minute);
    lemma_fundamental_div_mod_converse(hour * 60 + minute, 60, hour, minute);
}

/// Later slots never fall on an earlier day.
pub proof fn lemma_code_day_monotone(a: int, b: int)
    requires
        0 <= a <= b,
    ensures
        code_day(a) <= code_day(b),
{
    lemma_div_is_ordered(a, b, 1440);
}

/// The slot code of a day, hour and minute.
pub fn slot_key(day: i32, hour: u32, minute: u32) -> (k: u64)
    requires
        hour < 24,
        minute < 60,
    ensures
        k == slot_code(day as int, hour as int, minute as int),
        code_day(k as int) == day,
        code_hour(k as int) == hour,
{
    proof {
        lemma_slot_code_parts(day as int, hour as int, minute as int);
    }
    let d: u64 = (day as i64 + 0x8000_0000) as u64;
    assert(d * 1440 <= 0xFFFF_FFFF * 1440) by (nonlinear_arith)
        requires
            d <= 0xFFFF_FFFF,
    ;
    d * 1440 + (hour as u64) * 60 + minute as u64
}

/// The day a slot falls on.
pub fn slot_day(k: u64) -> (d: i64)
    ensures
        d == code_day(k as int),
{
    (k / 1440) as i64 - 0x8000_0000
}

/// The hour of the day a slot falls in.
pub fn slot_hour(k: u64) -> (h: u8)
    ensures
        h == code_hour(k as int),
        h < 24,
{
    ((k % 1440) / 60) as u8
}

// ── Parsing model timestamps ────────────────────────────────────────────────

#[verifier::external_type_specification]
#[verifier::external_body]
pub struct ExTimestampParseError(chrono::format::ParseError);

/// Day number (from the common era), hour and minute of the date-time that
/// `chrono::NaiveDateTime::parse_from_str` reads from `text` with the format
/// `%Y-%m-%dT%H:%M`, or `None` when it rejects the text.
pub uninterp spec fn naive_datetime_parse(text: Seq<char>) -> Option<(int, int, int)>;

/// Calls `chrono::NaiveDateTime::parse_from_str(text, "%Y-%m-%dT%H:%M")` and
/// reads the parsed date-time's day number (`num_days_from_ce`), hour and
/// minute. Trusted: the result is `naive_datetime_parse(text)`, and, as
/// `chrono`'s `Timelike` documents, the hour is below 24 and the minute below 60.
#[verifier::external_body]
fn parse_timestamp(text: &str) -> (r: Result<(i32, u32, u32), chrono::format::ParseError>)
    ensures
        match r {
            Ok(t) => {
                &&& naive_datetime_parse(text@) == Some((t.0 as int, t.1 as int, t.2 as int))
                &&& t.1 < 24
                &&& t.2 < 60
            },
            Err(_) => naive_datetime_parse(text@) is None,
        },
{
    match chrono::NaiveDateTime::parse_from_str(text, "%Y-%m-%dT%H:%M") {
        Ok(dt) => Ok((dt.date().num_days_from_ce(), dt.hour(), dt.minute())),
        Err(e) => Err(e),
    }
}

/// The slot code of a model timestamp, when it parses.
pub open spec fn timestamp_slot(text: Seq<char>) -> Option<u64> {
    match naive_datetime_parse(text) {
        Some(t) => Some(slot_code(t.0, t.1, t.2) as u64),
        None => None,
    }
}

/// Whether the first `n` timestamps all parse.
pub open spec fn all_parse(texts: Seq<String>, n: int) -> bool {
    forall|i: int| 0 <= i < n ==> (#[trigger] timestamp_slot(texts[i]@)) is Some
}

/// The hours of one model, keyed by slot: the `n` first timestamps with their
/// values, a later duplicate overwriting an earlier one.
pub open spec fn model_hours<T>(texts: Seq<String>, values: Seq<T>, n: nat) -> Map<u64, T>
    decreases n,
{
    if n == 0 {
        Map::empty()
    } else {
        model_hours(texts, values, (n - 1) as nat).insert(
            timestamp_slot(texts[n - 1]@).unwrap(),
            values[n - 1],
        )
    }
}

/// A model timestamp that `chrono` could not read.
pub struct TimestampError {
    /// Position of the timestamp in the model's time column.
    pub index: usize,
    /// `chrono`'s reason.
    pub cause: chrono::format::ParseError,
}

/// Keys one model's hourly values by time slot. `times[i]` is the timestamp
/// (`YYYY-MM-DDTHH:MM`) of `values[i]`. Fails on the first timestamp that
/// does not parse.
pub fn index_model<T: Copy>(times: &Vec<String>, values: &Vec<T>) -> (r: Result<
    BTreeMap<u64, T>,
    TimestampError,
>)
    requires
        values.len() == times.len(),
    ensures
        r is Ok <==> all_parse(times@, times.len() as int),
        r matches Ok(m) ==> m@ == model_hours(times@, values@, times.len() as nat),
        r matches Err(e) ==> {
            &&& e.index < times.len()
            &&& timestamp_slot(times@[e.index as int]@) is None
            &&& all_parse(times@, e.index as int)
        },
{
    broadcast use vstd::std_specs::btree::group_btree_axioms;

    let mut map: BTreeMap<u64, T> = BTreeMap::new();
    let mut i: usize = 0;
    while i < times.len()
        invariant
            values.len() == times.len(),
            i <= times.len(),
            all_parse(times@, i as int),
            map@ == model_hours(times@, values@, i as nat),
        decreases times.len() - i,
    {
        match parse_timestamp(times[i].as_str()) {
            Ok(t) => {
                let k = slot_key(t.0, t.1, t.2);
                map.insert(k, values[i]);
                i = i + 1;
            },
            Err(cause) => {
                return Err(TimestampError { index: i, cause });
            },
        }
    }
    Ok(map)
}

// ── Ordered walk over a map ─────────────────────────────────────────────────

/// `s` lists the entries of `m` by increasing slot, each once.
pub open spec fn in_slot_order<T>(m: Map<u64, T>, s: Seq<(u64, T)>) -> bool {
    &&& forall|i: int, j: int| 0 <= i < j < s.len() ==> s[i].0 < s[j].0
    &&& forall|i: int| 0 <= i < s.len() ==> m.contains_key(#[trigger] s[i].0) && m[s[i].0] == s[i].1
    &&& forall|k: u64| #[trigger] m.contains_key(k) ==> exists|i: int| 0 <= i < s.len() && s[i].0 == k
}

proof fn lemma_increasing_keys<V>(s: Seq<(&u64, &V)>)
    requires
        increasing_seq(s.map_values(|kv: (&u64, &V)| *kv.0)),
    ensures
        forall|i: int, j: int| 0 <= i < j < s.len() ==> *s[i].0 < *s[j].0,
{
    broadcast use vstd::std_specs::btree::group_btree_axioms;

    assert(vstd::laws_cmp::obeys_cmp::<u64>());
    let ks = s.map_values(|kv: (&u64, &V)| *kv.0);
    assert forall|i: int, j: int| 0 <= i < j < s.len() implies *s[i].0 < *s[j].0 by {
        assert(ks[i].cmp_spec(&ks[j]) is Less);
    }
}

/// The entries of `m` by increasing slot.
pub fn slot_entries<T: Copy>(m: &BTreeMap<u64, T>) -> (r: Vec<(u64, T)>)
    ensures
        in_slot_order(m@, r@),
{
    broadcast use vstd::std_specs::btree::group_btree_axioms;

    assert(vstd::laws_cmp::obeys_cmp::<u64>());
    let mut r: Vec<(u64, T)> = Vec::new();
    let ghost s = spec_btree_map_iter(m).remaining();
    for kv in it: m.iter()
        invariant
            it.seq() == s,
            r.len() == it.index(),
            forall|i: int| 0 <= i < it.index() ==> r[i] == (*s[i].0, *s[i].1),
    {
        let (k, v) = kv;
        r.push((*k, *v));
    }
    proof {
        lemma_increasing_keys(s);
    }
    assert forall|k: u64| #[trigger] m@.contains_key(k) implies exists|i: int|
        0 <= i < r.len() && r[i].0 == k by {
        assert(s.contains((&k, &m@[k])));
        let i = choose|i: int| 0 <= i < s.len() && s[i] == (&k, &m@[k]);
        assert(r[i].0 == k);
    }
    r
}

// ── The model cascade ───────────────────────────────────────────────────────

/// `base` with the hours of `layer` that fall before day `cutoff` laid over it.
pub open spec fn overlay<T>(base: Map<u64, T>, layer: Map<u64, T>, cutoff: int) -> Map<u64, T> {
    Map::new(
        |k: u64| base.contains_key(k) || (layer.contains_key(k) && code_day(k as int) < cutoff),
        |k: u64|
            if layer.contains_key(k) && code_day(k as int) < cutoff {
                layer[k]
            } else {
                base[k]
            },
    )
}

/// The entries of `layer` met among the first `n` of `e`.
pub open spec fn layer_prefix<T>(layer: Map<u64, T>, e: Seq<(u64, T)>, n: int) -> Map<u64, T> {
    Map::new(
        |k: u64| layer.contains_key(k) && exists|j: int| 0 <= j < n && #[trigger] e[j].0 == k,
        |k: u64| layer[k],
    )
}

/// Lays the hours of `layer` before day `cutoff` over `merged`.
pub fn overlay_into<T: Copy>(merged: &mut BTreeMap<u64, T>, layer: &BTreeMap<u64, T>, cutoff: i64)
    ensures
        final(merged)@ == overlay(old(merged)@, layer@, cutoff as int),
{
    broadcast use vstd::std_specs::btree::group_btree_axioms;

    let ghost base = merged@;
    let e = slot_entries(layer);
    assert(overlay(base, layer_prefix(layer@, e@, 0), cutoff as int) =~= base);
    let mut i: usize = 0;
    while i < e.len()
        invariant
            i <= e.len(),
            in_slot_order(layer@, e@),
            merged@ == overlay(base, layer_prefix(layer@, e@, i as int), cutoff as int),
        decreases e.len() - i,
    {
        let (k, v) = e[i];
        let ghost before = layer_prefix(layer@, e@, i as int);
        let ghost after = layer_prefix(layer@, e@, i + 1);
        assert(layer@.contains_key(e@[i as int].0));
        assert(after =~= before.insert(k, v)) by {
            assert(e@[i as int].0 == k);
            assert forall|k2: u64| #[trigger] after.contains_key(k2) implies before.insert(
                k,
                v,
            ).contains_key(k2) by {
                let j = choose|j: int| 0 <= j < i + 1 && #[trigger] e@[j].0 == k2;
                if j < i {
                    assert(before.contains_key(k2));
                }
            }
        }
        let d = slot_day(k);
        if d < cutoff {
            merged.insert(k, v);
            assert(merged@ =~= overlay(base, after, cutoff as int));
        } else {
            assert(merged@ =~= overlay(base, after, cutoff as int));
        }
        i = i + 1;
    }
    assert(layer_prefix(layer@, e@, e.len() as int) =~= layer@) by {
        assert forall|k: u64| #[trigger] layer@.contains_key(k) implies layer_prefix(
            layer@,
            e@,
            e.len() as int,
        ).contains_key(k) by {
            let j = choose|j: int| 0 <= j < e.len() && e@[j].0 == k;
            assert(e@[j].0 == k);
        }
    }
}

/// The merged hours of the cascade: best match everywhere, ARPEGE over it
/// before day `today + 4`, AROME over both before day `today + 2`.
pub open spec fn cascade<T>(
    today: int,
    best: Map<u64, T>,
    arpege: Option<Map<u64, T>>,
    arome: Option<Map<u64, T>>,
) -> Map<u64, T> {
    let with_arpege = match arpege {
        Some(a) => overlay(best, a, today + 4),
        None => best,
    };
    match arome {
        Some(a) => overlay(with_arpege, a, today + 2),
        None => with_arpege,
    }
}

/// Merges the models of the cascade.
pub fn merge_models<T: Copy>(
    today: i32,
    best: &BTreeMap<u64, T>,
    arpege: Option<&BTreeMap<u64, T>>,
    arome: Option<&BTreeMap<u64, T>>,
) -> (m: BTreeMap<u64, T>)
    ensures
        m@ == cascade(
            today as int,
            best@,
            match arpege {
                Some(a) => Some(a@),
                None => None,
            },
            match arome {
                Some(a) => Some(a@),
                None => None,
            },
        ),
{
    let mut merged = best.clone();
    match arpege {
        Some(a) => overlay_into(&mut merged, a, today as i64 + 4),
        None => {},
    }
    match arome {
        Some(a) => overlay_into(&mut merged, a, today as i64 + 2),
        None => {},
    }
    merged
}

/// The model cascade: AROME decides the hours it covers before day
/// `today + 2`; ARPEGE decides the other hours it covers before day
/// `today + 4`; best match decides every remaining hour, and no other hour
/// is forecast.
pub proof fn law_cascade_priority<T>(
    today: int,
    best: Map<u64, T>,
    arpege: Option<Map<u64, T>>,
    arome: Option<Map<u64, T>>,
    k: u64,
)
    ensures
        ({
            let m = cascade(today, best, arpege, arome);
            let by_arome = arome matches Some(a) && a.contains_key(k) && code_day(k as int) < today + 2;
            let by_arpege = arpege matches Some(p) && p.contains_key(k) && code_day(k as int) < today + 4;
            &&& by_arome ==> m.contains_key(k) && m[k] == arome->0[k]
            &&& !by_arome && by_arpege ==> m.contains_key(k) && m[k] == arpege->0[k]
            &&& !by_arome && !by_arpege ==> (m.contains_key(k) <==> best.contains_key(k))
            &&& !by_arome && !by_arpege && best.contains_key(k) ==> m[k] == best[k]
        }),
{
}

/// Slot codes order like the date-times they stand for: by day, then hour,
/// then minute.
pub proof fn law_slot_order(d1: int, h1: int, m1: int, d2: int, h2: int, m2: int)
    requires
        0 <= h1 < 24,
        0 <= m1 < 60,
        0 <= h2 < 24,
        0 <= m2 < 60,
    ensures
        slot_code(d1, h1, m1) < slot_code(d2, h2, m2) <==> (d1 < d2 || (d1 == d2 && (h1 < h2 || (
        h1 == h2 && m1 < m2)))),
{
    if d1 < d2 {
        assert((d1 + day_offset()) * 1440 + 1440 <= (d2 + day_offset()) * 1440) by (nonlinear_arith)
            requires
                d1 < d2,
        ;
    } else if d1 > d2 {
        assert((d2 + day_offset()) * 1440 + 1440 <= (d1 + day_offset()) * 1440) by (nonlinear_arith)
            requires
                d2 < d1,
        ;
    }
}

// ── Grouping hours into displayed days ─────────────────────────────────────

/// The hours shown for every day beyond the detailed ones.
pub open spec fn is_display_hour(h: int) -> bool {
    h == 2 || h == 5 || h == 8 || h == 11 || h == 14 || h == 17 || h == 20 || h == 23
}

/// Whether hour `h` is one of the three-hourly display slots
/// (2h, 5h, 8h, 11h, 14h, 17h, 20h, 23h).
pub fn display_hour(h: u8) -> (r: bool)
    ensures
        r == is_display_hour(h as int),
{
    h == 2 || h == 5 || h == 8 || h == 11 || h == 14 || h == 17 || h == 20 || h == 23
}

/// Whether the slot is shown: every hour of the days before `detail_cutoff`,
/// only the display hours after.
pub open spec fn keeps_slot(k: u64, detail_cutoff: int) -> bool {
    code_day(k as int) < detail_cutoff || is_display_hour(code_hour(k as int))
}

/// One displayed hour of the forecast.
pub struct ForecastSlot<T> {
    /// Slot code of the hour.
    pub time: u64,
    /// Hour of the day, 0 to 23.
    pub hour: u8,
    /// The model's values for that hour.
    pub value: T,
}

/// One displayed day of the forecast.
pub struct ForecastDay<T> {
    /// Day number from the common era, as `chrono` counts it.
    pub date: i64,
    /// Its displayed hours, earliest first.
    pub slots: Vec<ForecastSlot<T>>,
}

/// The slot codes and values of a day's hours.
pub open spec fn slot_pairs<T>(slots: Seq<ForecastSlot<T>>) -> Seq<(u64, T)> {
    slots.map_values(|s: ForecastSlot<T>| (s.time, s.value))
}

/// All displayed hours of a forecast, day after day.
pub open spec fn flatten_days<T>(days: Seq<ForecastDay<T>>) -> Seq<(u64, T)>
    decreases days.len(),
{
    if days.len() == 0 {
        Seq::empty()
    } else {
        flatten_days(days.drop_last()) + slot_pairs(days.last().slots@)
    }
}

/// Days are non-empty, hold only their own hours, and follow each other.
pub open spec fn well_grouped<T>(days: Seq<ForecastDay<T>>) -> bool {
    &&& forall|d: int| 0 <= d < days.len() ==> (#[trigger] days[d]).slots.len() > 0
    &&& forall|d: int, j: int|
        0 <= d < days.len() && 0 <= j < days[d].slots.len() ==> {
            let s = #[trigger] days[d].slots@[j];
            &&& code_day(s.time as int) == days[d].date
            &&& s.hour == code_hour(s.time as int)
        }
    &&& forall|d1: int, d2: int|
        0 <= d1 < d2 < days.len() ==> (#[trigger] days[d1]).date < (#[trigger] days[d2]).date
}

/// The shown entries among `s`, in order.
pub open spec fn kept_entries<T>(s: Seq<(u64, T)>, detail_cutoff: int) -> Seq<(u64, T)>
    decreases s.len(),
{
    if s.len() == 0 {
        Seq::empty()
    } else if keeps_slot(s.last().0, detail_cutoff) {
        kept_entries(s.drop_last(), detail_cutoff).push(s.last())
    } else {
        kept_entries(s.drop_last(), detail_cutoff)
    }
}

/// What the kept entries of an ordered listing are: the shown ones, in order.
proof fn lemma_kept_entries<T>(m: Map<u64, T>, s: Seq<(u64, T)>, detail_cutoff: int)
    requires
        forall|i: int, j: int| 0 <= i < j < s.len() ==> s[i].0 < s[j].0,
        forall|i: int| 0 <= i < s.len() ==> m.contains_key(#[trigger] s[i].0) && m[s[i].0] == s[i].1,
    ensures
        ({
            let r = kept_entries(s, detail_cutoff);
            &&& forall|i: int, j: int| 0 <= i < j < r.len() ==> r[i].0 < r[j].0
            &&& forall|i: int|
                0 <= i < r.len() ==> m.contains_key(#[trigger] r[i].0) && m[r[i].0] == r[i].1
                    && keeps_slot(r[i].0, detail_cutoff)
            &&& forall|i: int|
                0 <= i < s.len() && keeps_slot(#[trigger] s[i].0, detail_cutoff) ==> exists|j: int|
                    0 <= j < r.len() && r[j].0 == s[i].0
            &&& forall|i: int| 0 <= i < r.len() ==> exists|j: int| 0 <= j < s.len() && s[j] == #[trigger] r[i]
        }),
    decreases s.len(),
{
    if s.len() > 0 {
        let p = s.drop_last();
        lemma_kept_entries(m, p, detail_cutoff);
        let rp = kept_entries(p, detail_cutoff);
        let r = kept_entries(s, detail_cutoff);
        assert forall|i: int| 0 <= i < s.len() && keeps_slot(#[trigger] s[i].0, detail_cutoff) implies exists|j: int|
            0 <= j < r.len() && r[j].0 == s[i].0 by {
            if i < s.len() - 1 {
                assert(p[i] == s[i]);
                let j = choose|j: int| 0 <= j < rp.len() && rp[j].0 == p[i].0;
                assert(r[j] == rp[j]);
            } else {
                assert(r[r.len() - 1] == s.last());
            }
        }
        assert forall|i: int| 0 <= i < r.len() implies exists|j: int| 0 <= j < s.len() && s[j] == #[trigger] r[i] by {
            if i < rp.len() {
                assert(r[i] == rp[i]);
                let j = choose|j: int| 0 <= j < p.len() && p[j] == rp[i];
                assert(s[j] == p[j]);
            } else {
                assert(s[s.len() - 1] == r[i]);
            }
        }
        assert forall|i: int, j: int| 0 <= i < j < r.len() implies r[i].0 < r[j].0 by {
            if j == rp.len() {
                let i2 = choose|i2: int| 0 <= i2 < p.len() && p[i2] == #[trigger] rp[i];
                assert(s[i2] == p[i2]);
                assert(r[i] == rp[i]);
            }
        }
    }
}

/// Groups the merged hours by day, keeping every hour of the days before
/// `detail_cutoff` and only the display hours of the later days.
pub fn group_days<T: Copy>(merged: &BTreeMap<u64, T>, detail_cutoff: i64) -> (days: Vec<ForecastDay<T>>)
    ensures
        well_grouped(days@),
        ({
            let f = flatten_days(days@);
            &&& forall|i: int, j: int| 0 <= i < j < f.len() ==> f[i].0 < f[j].0
            &&& forall|i: int|
                0 <= i < f.len() ==> merged@.contains_key(#[trigger] f[i].0) && merged@[f[i].0]
                    == f[i].1 && keeps_slot(f[i].0, detail_cutoff as int)
            &&& forall|k: u64|
                #[trigger] merged@.contains_key(k) && keeps_slot(k, detail_cutoff as int) ==> exists|i: int|
                    0 <= i < f.len() && f[i].0 == k
        }),
{
    let e = slot_entries(merged);
    let mut days: Vec<ForecastDay<T>> = Vec::new();
    let mut cur: Vec<ForecastSlot<T>> = Vec::new();
    let mut cur_date: i64 = 0;
    let mut i: usize = 0;
    while i < e.len()
        invariant
            i <= e.len(),
            in_slot_order(merged@, e@),
            well_grouped(days@),
            flatten_days(days@) + slot_pairs(cur@) == kept_entries(e@.take(i as int), detail_cutoff as int),
            forall|j: int| 0 <= j < cur.len() ==> {
                let s = #[trigger] cur@[j];
                &&& code_day(s.time as int) == cur_date
                &&& s.hour == code_hour(s.time as int)
            },
            cur.len() == 0 ==> days.len() == 0,
            cur.len() > 0 && days.len() > 0 ==> days@.last().date < cur_date,
            cur.len() > 0 ==> forall|j: int| i <= j < e.len() ==> cur_date <= code_day(#[trigger] e@[j].0 as int),
        decreases e.len() - i,
    {
        let (k, v) = e[i];
        let d = slot_day(k);
        let h = slot_hour(k);
        let ghost pre_days = days@;
        let ghost pre_cur = cur@;
        assert(e@.take(i + 1).drop_last() =~= e@.take(i as int));
        assert(e@.take(i + 1).last() == e@[i as int]);
        if d < detail_cutoff || display_hour(h) {
            if cur.len() > 0 && cur_date != d {
                let mut done: Vec<ForecastSlot<T>> = Vec::new();
                std::mem::swap(&mut done, &mut cur);
                days.push(ForecastDay { date: cur_date, slots: done });
                assert(days@.drop_last() =~= pre_days);
                assert(flatten_days(days@) =~= flatten_days(pre_days) + slot_pairs(pre_cur));
                assert(cur@ =~= Seq::<ForecastSlot<T>>::empty());
                assert(slot_pairs(cur@) =~= Seq::<(u64, T)>::empty());
                assert(pre_cur.len() > 0);
                assert(cur_date < d);
                assert forall|d1: int, d2: int|
                    0 <= d1 < d2 < days@.len() implies (#[trigger] days@[d1]).date < (#[trigger] days@[d2]).date by {
                    if d2 == days@.len() - 1 && d1 < pre_days.len() {
                        assert(days@[d1] == pre_days[d1]);
                        assert(pre_days[d1].date <= pre_days.last().date);
                    }
                }
            }
            let ghost mid_cur = cur@;
            cur_date = d;
            cur.push(ForecastSlot { time: k, hour: h, value: v });
            assert(slot_pairs(cur@) =~= slot_pairs(mid_cur).push((k, v)));
            assert forall|j: int| i + 1 <= j < e.len() implies cur_date <= code_day(#[trigger] e@[j].0 as int) by {
                lemma_code_day_monotone(k as int, e@[j].0 as int);
            }
        }
        i = i + 1;
    }
    if cur.len() > 0 {
        let ghost pre_days = days@;
        let ghost pre_cur = cur@;
        days.push(ForecastDay { date: cur_date, slots: cur });
        assert(days@.drop_last() =~= pre_days);
        assert forall|d1: int, d2: int|
            0 <= d1 < d2 < days@.len() implies (#[trigger] days@[d1]).date < (#[trigger] days@[d2]).date by {
            if d2 == days@.len() - 1 && d1 < pre_days.len() {
                assert(days@[d1] == pre_days[d1]);
                assert(pre_days[d1].date <= pre_days.last().date);
            }
        }
    }
    assert(e@.take(e.len() as int) =~= e@);
    proof {
        lemma_kept_entries(merged@, e@, detail_cutoff as int);
        let f = flatten_days(days@);
        assert(f == kept_entries(e@, detail_cutoff as int));
        assert forall|k: u64|
            #[trigger] merged@.contains_key(k) && keeps_slot(k, detail_cutoff as int) implies exists|i: int|
                0 <= i < f.len() && f[i].0 == k by {
            let i = choose|i: int| 0 <= i < e@.len() && e@[i].0 == k;
            assert(keeps_slot(e@[i].0, detail_cutoff as int));
        }
    }
    days
}

/// The forecast to display: the merged cascade, grouped by day, every hour
/// kept for the first two days (`today` and the next) and the three-hourly
/// display slots after them.
pub fn assemble_forecast<T: Copy>(
    today: i32,
    best: &BTreeMap<u64, T>,
    arpege: Option<&BTreeMap<u64, T>>,
    arome: Option<&BTreeMap<u64, T>>,
) -> (days: Vec<ForecastDay<T>>)
    ensures
        well_grouped(days@),
        ({
            let m = cascade(
                today as int,
                best@,
                match arpege {
                    Some(a) => Some(a@),
                    None => None,
                },
                match arome {
                    Some(a) => Some(a@),
                    None => None,
                },
            );
            let f = flatten_days(days@);
            &&& forall|i: int, j: int| 0 <= i < j < f.len() ==> f[i].0 < f[j].0
            &&& forall|i: int|
                0 <= i < f.len() ==> m.contains_key(#[trigger] f[i].0) && m[f[i].0] == f[i].1
                    && keeps_slot(f[i].0, today + 2)
            &&& forall|k: u64|
                #[trigger] m.contains_key(k) && keeps_slot(k, today + 2) ==> exists|i: int|
                    0 <= i < f.len() && f[i].0 == k
        }),
{
    let merged = merge_models(today, best, arpege, arome);
    group_days(&merged, today as i64 + 2)
}

/// The display hours are every third hour starting at 2h: 2h, 5h, 8h, ..., 23h.
pub proof fn law_display_hours(h: int)
    ensures
        0 <= h < 24 ==> (is_display_hour(h) <==> h % 3 == 2),
        is_display_hour(h) ==> 0 <= h < 24,
{
}

} // verus!
