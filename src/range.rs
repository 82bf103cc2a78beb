//! Date ranges of a query: named presets relative to the current time, or
//! explicit bounds in the canonical text form, never both.

use crate::error::LogError;
use crate::timestamp::{
    date_after, date_before, earliest_instant, latest_instant, next_date, prev_date, read_timestamp,
    storable_year, valid_date, weekday_from_monday, LocalDateTime,
};
use vstd::prelude::*;

verus! {

/// A named range relative to the current local time.
#[derive(Clone, Copy, PartialEq, Eq, Debug, Structural)]
pub enum DatePreset {
    /// From midnight today to midnight tomorrow.
    Today,
    /// From midnight of this week's Monday to now.
    ThisWeek,
    /// From midnight of the first day of this month to now.
    ThisMonth,
    /// From midnight of the first of January of the current year (not of the
    /// year before) to now.
    ThisYear,
}

/// Day `a` is not later than day `b`.
pub open spec fn date_not_after(a: (int, int, int), b: (int, int, int)) -> bool {
    a.0 < b.0 || (a.0 == b.0 && (a.1 < b.1 || (a.1 == b.1 && a.2 <= b.2)))
}

/// Midnight of the Monday of the week of `now`, given the weekday of `now`
/// counted from Monday; the earliest instant where that Monday lies before year 0.
pub open spec fn week_start(now: LocalDateTime, weekday: int) -> LocalDateTime {
    let d = date_before(now.year as int, now.month as int, now.day as int, weekday as nat);
    if storable_year(d.0) {
        now.on_date(d).start_of_day()
    } else {
        earliest_instant()
    }
}

/// Midnight at the start of the day after `now`; the latest instant where
/// that day lies after year 9999.
pub open spec fn next_midnight(now: LocalDateTime) -> LocalDateTime {
    let d = date_after(now.year as int, now.month as int, now.day as int, 1);
    if storable_year(d.0) {
        now.on_date(d).start_of_day()
    } else {
        latest_instant()
    }
}

/// The bounds of a preset at the instant `now`.
pub open spec fn preset_bounds(p: DatePreset, now: LocalDateTime) -> (LocalDateTime, LocalDateTime) {
    match p {
        DatePreset::Today => (now.start_of_day(), next_midnight(now)),
        DatePreset::ThisWeek => (
            week_start(now, weekday_from_monday(now.year as int, now.month as int, now.day as int)),
            now,
        ),
        DatePreset::ThisMonth => (LocalDateTime { day: 1, ..now.start_of_day() }, now),
        DatePreset::ThisYear => (LocalDateTime { month: 1, day: 1, ..now.start_of_day() }, now),
    }
}

/// The day before a day is earlier.
proof fn lemma_prev_date_earlier(y: int, m: int, d: int)
    requires
        valid_date(y, m, d),
    ensures
        date_not_after(prev_date(y, m, d), (y, m, d)),
{
}

/// The day after a day is later.
proof fn lemma_next_date_later(y: int, m: int, d: int)
    requires
        valid_date(y, m, d),
    ensures
        date_not_after((y, m, d), next_date(y, m, d)),
        next_date(y, m, d) != (y, m, d),
{
}

/// Going back any number of days never lands later.
proof fn lemma_date_before_earlier(y: int, m: int, d: int, n: nat)
    requires
        valid_date(y, m, d),
    ensures
        date_not_after(date_before(y, m, d, n), (y, m, d)),
    decreases n,
{
    if n > 0 {
        let p = prev_date(y, m, d);
        lemma_prev_date_earlier(y, m, d);
        crate::timestamp::lemma_neighbour_dates_valid(y, m, d);
        lemma_date_before_earlier(p.0, p.1, p.2, (n - 1) as nat);
    }
}

/// Every instant with the canonical text form lies between the two sentinels.
pub proof fn lemma_within_sentinels(t: LocalDateTime)
    requires
        t.wf(),
    ensures
        earliest_instant().not_after(t),
        t.not_after(latest_instant()),
{
}

/// The bounds of a preset are instants in the canonical form, and the start
/// is not later than the end.
pub proof fn lemma_preset_bounds_ordered(p: DatePreset, now: LocalDateTime)
    requires
        now.wf(),
    ensures
        preset_bounds(p, now).0.wf(),
        preset_bounds(p, now).1.wf(),
        preset_bounds(p, now).0.not_after(preset_bounds(p, now).1),
{
    let (y, m, d) = (now.year as int, now.month as int, now.day as int);
    match p {
        DatePreset::Today => {
            crate::timestamp::lemma_shifted_dates_valid(y, m, d, 1);
            lemma_next_date_later(y, m, d);
            let nd = next_date(y, m, d);
            assert(date_after(y, m, d, 1) == date_after(nd.0, nd.1, nd.2, 0));
            lemma_within_sentinels(now.start_of_day());
        },
        DatePreset::ThisWeek => {
            let k = weekday_from_monday(y, m, d) as nat;
            crate::timestamp::lemma_shifted_dates_valid(y, m, d, k);
            lemma_date_before_earlier(y, m, d, k);
            lemma_within_sentinels(now);
        },
        _ => {},
    }
}

/// The month preset starts at midnight of the first day of the current month
/// and ends no earlier than the current instant.
pub proof fn law_this_month_bounds(now: LocalDateTime)
    requires
        now.wf(),
    ensures
        preset_bounds(DatePreset::ThisMonth, now).0 == (LocalDateTime {
            year: now.year,
            month: now.month,
            day: 1,
            hour: 0,
            minute: 0,
            second: 0,
        }),
        now.not_after(preset_bounds(DatePreset::ThisMonth, now).1),
{
}

/// The week preset starts at midnight of a Monday of the six days before the
/// current day or of the current day itself, where that Monday lies in year 0
/// or later.
pub proof fn law_week_starts_on_monday(now: LocalDateTime)
    requires
        now.wf(),
        storable_year(
            date_before(
                now.year as int,
                now.month as int,
                now.day as int,
                weekday_from_monday(now.year as int, now.month as int, now.day as int) as nat,
            ).0,
        ),
    ensures
        ({
            let start = preset_bounds(DatePreset::ThisWeek, now).0;
            let back = crate::timestamp::day_number(now.year as int, now.month as int, now.day as int)
                - crate::timestamp::day_number(start.year as int, start.month as int, start.day as int);
            &&& weekday_from_monday(start.year as int, start.month as int, start.day as int) == 0
            &&& start.hour == 0 && start.minute == 0 && start.second == 0
            &&& 0 <= back < 7
        }),
{
    let (y, m, d) = (now.year as int, now.month as int, now.day as int);
    let dn = crate::timestamp::day_number(y, m, d);
    let w = weekday_from_monday(y, m, d);
    assert(0 <= w < 7);
    assert(dn + 5 == 7 * ((dn + 5) / 7) + w);
    crate::timestamp::lemma_shifted_dates_valid(y, m, d, w as nat);
    crate::timestamp::lemma_date_before_day_number(y, m, d, w as nat);
    let b = date_before(y, m, d, w as nat);
    let start = preset_bounds(DatePreset::ThisWeek, now).0;
    assert(start.year as int == b.0 && start.month as int == b.1 && start.day as int == b.2);
    assert((dn - w + 5) == 7 * ((dn + 5) / 7));
}

/// Explicit bounds in the canonical text form resolve to their instants.
pub proof fn law_canonical_bounds_resolve(start: LocalDateTime, end: LocalDateTime, now: LocalDateTime)
    requires
        start.wf(),
        end.wf(),
    ensures
        resolved_range(None, Some(start.text()), Some(end.text()), now) == Ok::<
            (Option<LocalDateTime>, Option<LocalDateTime>),
            LogError,
        >((Some(start), Some(end))),
        resolved_range(None, Some(start.text()), None, now) == Ok::<
            (Option<LocalDateTime>, Option<LocalDateTime>),
            LogError,
        >((Some(start), None)),
{
    crate::timestamp::lemma_read_canonical(start);
    crate::timestamp::lemma_read_canonical(end);
}

/// The bounds that an explicit text gives a side of the range: `default` where
/// none is given; `None` where the text is not a canonical instant.
pub open spec fn explicit_bound(text: Option<Seq<char>>, default: Option<LocalDateTime>) -> Option<
    Option<LocalDateTime>,
> {
    match text {
        None => Some(default),
        Some(s) => match read_timestamp(s) {
            Some(t) => Some(Some(t)),
            None => None,
        },
    }
}

/// The view of an optional text.
pub open spec fn opt_text(o: Option<String>) -> Option<Seq<char>> {
    match o {
        Some(s) => Some(s@),
        None => None,
    }
}

/// The range that a preset or explicit bounds resolve to at the instant `now`;
/// a side that nothing bounds stays `None`.
pub open spec fn resolved_range(
    preset: Option<DatePreset>,
    start: Option<Seq<char>>,
    end: Option<Seq<char>>,
    now: LocalDateTime,
) -> Result<(Option<LocalDateTime>, Option<LocalDateTime>), LogError> {
    if preset is Some && (start is Some || end is Some) {
        Err(LogError::ConfigConflict)
    } else {
        match preset {
            Some(p) => Ok((Some(preset_bounds(p, now).0), Some(preset_bounds(p, now).1))),
            None => match (explicit_bound(start, None), explicit_bound(end, None)) {
                (Some(a), Some(b)) => Ok((a, b)),
                _ => Err(LogError::TimestampParseError),
            },
        }
    }
}

impl DatePreset {
    /// The bounds of this preset at the instant `now`.
    pub fn date_times(&self, now: &LocalDateTime) -> (r: (LocalDateTime, LocalDateTime))
        requires
            now.wf(),
        ensures
            r == preset_bounds(*self, *now),
            r.0.wf(),
            r.1.wf(),
            r.0.not_after(r.1),
    {
        let r = match self {
            DatePreset::Today => (now.midnight(), next_midnight_of(now)),
            DatePreset::ThisWeek => {
                let weekday = now.days_from_monday();
                (week_start_of(now, weekday), *now)
            },
            DatePreset::ThisMonth => (LocalDateTime { day: 1, ..now.midnight() }, *now),
            DatePreset::ThisYear => (LocalDateTime { month: 1, day: 1, ..now.midnight() }, *now),
        };
        proof {
            lemma_preset_bounds_ordered(*self, *now);
        }
        r
    }
}

/// Midnight of the Monday `weekday` days before the day of `now`.
pub fn week_start_of(now: &LocalDateTime, weekday: u32) -> (r: LocalDateTime)
    requires
        now.wf(),
    ensures
        r == week_start(*now, weekday as int),
{
    match now.sub_days(weekday) {
        Some(monday) => monday.midnight(),
        None => LocalDateTime::earliest(),
    }
}

/// Midnight at the start of the day after `now`.
pub fn next_midnight_of(now: &LocalDateTime) -> (r: LocalDateTime)
    requires
        now.wf(),
    ensures
        r == next_midnight(*now),
{
    match now.add_days(1) {
        Some(next) => next.midnight(),
        None => LocalDateTime::latest(),
    }
}

/// Resolves the range of a query from a preset or explicit bounds, at the
/// instant `now`. Giving a preset together with any explicit bound is a
/// conflict; an explicit bound that is not a canonical instant is rejected.
pub fn resolve_range(
    preset: Option<DatePreset>,
    start: &Option<String>,
    end: &Option<String>,
    now: &LocalDateTime,
) -> (r: Result<(Option<LocalDateTime>, Option<LocalDateTime>), LogError>)
    requires
        now.wf(),
    ensures
        r == resolved_range(preset, opt_text(*start), opt_text(*end), *now),
        preset is Some && (start is Some || end is Some) ==> r == Err::<
            (Option<LocalDateTime>, Option<LocalDateTime>),
            LogError,
        >(LogError::ConfigConflict),
{
    if preset.is_some() && (start.is_some() || end.is_some()) {
        return Err(LogError::ConfigConflict);
    }
    match preset {
        Some(p) => {
            let (a, b) = p.date_times(now);
            Ok((Some(a), Some(b)))
        },
        None => {
            let a = match start {
                Some(s) => match LocalDateTime::parse(s.as_str()) {
                    Some(t) => Some(t),
                    None => {
                        return Err(LogError::TimestampParseError);
                    },
                },
                None => None,
            };
            let b = match end {
                Some(s) => match LocalDateTime::parse(s.as_str()) {
                    Some(t) => Some(t),
                    None => {
                        return Err(LogError::TimestampParseError);
                    },
                },
                None => None,
            };
            Ok((a, b))
        },
    }
}

} // verus!
