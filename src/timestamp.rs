//! Local wall-clock instants with one-second resolution, their calendar
//! arithmetic, and their canonical text form `YYYY-MM-DDTHH:MM:SS`.

use chrono::{Datelike, Timelike};
use vstd::prelude::*;

verus! {

/// Leap years of the proleptic Gregorian calendar.
pub open spec fn is_leap_year(y: int) -> bool {
    (y % 4 == 0 && y % 100 != 0) || y % 400 == 0
}

/// The number of days of month `m` (1 to 12) in year `y`.
pub open spec fn days_in_month(y: int, m: int) -> int {
    if m == 2 {
        if is_leap_year(y) {
            29
        } else {
            28
        }
    } else if m == 4 || m == 6 || m == 9 || m == 11 {
        30
    } else {
        31
    }
}

/// `(y, m, d)` names a day of the calendar.
pub open spec fn valid_date(y: int, m: int, d: int) -> bool {
    1 <= m <= 12 && 1 <= d <= days_in_month(y, m)
}

/// The day after `(y, m, d)`.
pub open spec fn next_date(y: int, m: int, d: int) -> (int, int, int) {
    if d < days_in_month(y, m) {
        (y, m, d + 1)
    } else if m < 12 {
        (y, m + 1, 1)
    } else {
        (y + 1, 1, 1)
    }
}

/// The day before `(y, m, d)`.
pub open spec fn prev_date(y: int, m: int, d: int) -> (int, int, int) {
    if d > 1 {
        (y, m, d - 1)
    } else if m > 1 {
        (y, m - 1, days_in_month(y, m - 1))
    } else {
        (y - 1, 12, 31)
    }
}

/// The day `n` days after `(y, m, d)`.
pub open spec fn date_after(y: int, m: int, d: int, n: nat) -> (int, int, int)
    decreases n,
{
    if n == 0 {
        (y, m, d)
    } else {
        let t = next_date(y, m, d);
        date_after(t.0, t.1, t.2, (n - 1) as nat)
    }
}

/// The day `n` days before `(y, m, d)`.
pub open spec fn date_before(y: int, m: int, d: int, n: nat) -> (int, int, int)
    decreases n,
{
    if n == 0 {
        (y, m, d)
    } else {
        let t = prev_date(y, m, d);
        date_before(t.0, t.1, t.2, (n - 1) as nat)
    }
}

/// Years whose instants have the four-digit text form.
pub open spec fn storable_year(y: int) -> bool {
    0 <= y <= 9999
}

/// The number of days from the first of January of year 0 to that of year `y`.
pub open spec fn days_before_year(y: int) -> int {
    365 * y + (y + 3) / 4 - (y + 99) / 100 + (y + 399) / 400
}

/// The number of days of year `y` before the first of month `m`.
pub open spec fn days_before_month(y: int, m: int) -> int
    decreases m,
{
    if m <= 1 {
        0
    } else {
        days_before_month(y, m - 1) + days_in_month(y, m - 1)
    }
}

/// The number of days from the first of January of year 0 to `(y, m, d)`.
pub open spec fn day_number(y: int, m: int, d: int) -> int {
    days_before_year(y) + days_before_month(y, m) + d - 1
}

/// The weekday of a day, counted from Monday (0) to Sunday (6); the first of
/// January of year 0 is a Saturday.
pub open spec fn weekday_from_monday(year: int, month: int, day: int) -> int {
    (day_number(year, month, day) + 5) % 7
}

/// The decimal digit `n`, for `n` from 0 to 9.
pub open spec fn digit(n: int) -> char {
    if n == 0 {
        '0'
    } else if n == 1 {
        '1'
    } else if n == 2 {
        '2'
    } else if n == 3 {
        '3'
    } else if n == 4 {
        '4'
    } else if n == 5 {
        '5'
    } else if n == 6 {
        '6'
    } else if n == 7 {
        '7'
    } else if n == 8 {
        '8'
    } else {
        '9'
    }
}

/// `n` as two decimal digits, zero-padded.
pub open spec fn two_digits(n: int) -> Seq<char> {
    seq![digit(n / 10), digit(n % 10)]
}

/// `n` as four decimal digits, zero-padded.
pub open spec fn four_digits(n: int) -> Seq<char> {
    two_digits(n / 100) + two_digits(n % 100)
}

/// The instant whose canonical text form is exactly `s`, if there is one.
pub open spec fn read_timestamp(s: Seq<char>) -> Option<LocalDateTime> {
    if exists|t: LocalDateTime| t.wf() && #[trigger] t.text() == s {
        Some(choose|t: LocalDateTime| t.wf() && #[trigger] t.text() == s)
    } else {
        None
    }
}

/// The earliest instant that has the canonical text form: the start of year 0.
pub open spec fn earliest_instant() -> LocalDateTime {
    LocalDateTime { year: 0, month: 1, day: 1, hour: 0, minute: 0, second: 0 }
}

/// The latest instant that has the canonical text form: the last second of year 9999.
pub open spec fn latest_instant() -> LocalDateTime {
    LocalDateTime { year: 9999, month: 12, day: 31, hour: 23, minute: 59, second: 59 }
}

/// A local wall-clock instant, to the second.
#[derive(Clone, Copy, PartialEq, Eq, Debug, Structural)]
pub struct LocalDateTime {
    pub year: i32,
    pub month: u32,
    pub day: u32,
    pub hour: u32,
    pub minute: u32,
    pub second: u32,
}

impl LocalDateTime {
    /// The fields name an instant of the calendar.
    pub open spec fn valid(&self) -> bool {
        valid_date(self.year as int, self.month as int, self.day as int) && self.hour < 24
            && self.minute < 60 && self.second < 60
    }

    /// The fields name an instant that has the canonical text form.
    pub open spec fn wf(&self) -> bool {
        self.valid() && storable_year(self.year as int)
    }

    /// The day part as a triple.
    pub open spec fn date(&self) -> (int, int, int) {
        (self.year as int, self.month as int, self.day as int)
    }

    /// This instant moved to the day `d`, keeping the time of day.
    pub open spec fn on_date(&self, d: (int, int, int)) -> LocalDateTime {
        LocalDateTime { year: d.0 as i32, month: d.1 as u32, day: d.2 as u32, ..*self }
    }

    /// The canonical text form `YYYY-MM-DDTHH:MM:SS`.
    pub open spec fn text(&self) -> Seq<char> {
        four_digits(self.year as int) + seq!['-'] + two_digits(self.month as int) + seq!['-']
            + two_digits(self.day as int) + seq!['T'] + two_digits(self.hour as int) + seq![':']
            + two_digits(self.minute as int) + seq![':'] + two_digits(self.second as int)
    }

    /// The form in which an instant is displayed: `YYYY-MM-DD HH:MM:SS`.
    pub open spec fn display_text(&self) -> Seq<char> {
        four_digits(self.year as int) + seq!['-'] + two_digits(self.month as int) + seq!['-']
            + two_digits(self.day as int) + seq![' '] + two_digits(self.hour as int) + seq![':']
            + two_digits(self.minute as int) + seq![':'] + two_digits(self.second as int)
    }

    /// `self` is not later than `other`.
    pub open spec fn not_after(&self, other: LocalDateTime) -> bool {
        if self.year != other.year {
            self.year < other.year
        } else if self.month != other.month {
            self.month < other.month
        } else if self.day != other.day {
            self.day < other.day
        } else if self.hour != other.hour {
            self.hour < other.hour
        } else if self.minute != other.minute {
            self.minute < other.minute
        } else {
            self.second <= other.second
        }
    }

    /// Midnight at the start of the same day.
    pub open spec fn start_of_day(&self) -> LocalDateTime {
        LocalDateTime { hour: 0, minute: 0, second: 0, ..*self }
    }

    /// An instant from its fields; `None` where they name no instant or the
    /// year lies outside 0 to 9999.
    pub fn new(year: i32, month: u32, day: u32, hour: u32, minute: u32, second: u32) -> (r: Option<
        LocalDateTime,
    >)
        ensures
            r == (if (LocalDateTime { year, month, day, hour, minute, second }).wf() {
                Some(LocalDateTime { year, month, day, hour, minute, second })
            } else {
                None
            }),
    {
        let t = LocalDateTime { year, month, day, hour, minute, second };
        if 0 <= year && year <= 9999 && 1 <= month && month <= 12 && 1 <= day && day
            <= month_length(year, month) && hour < 24 && minute < 60 && second < 60 {
            Some(t)
        } else {
            None
        }
    }

    /// The earliest instant that has the canonical text form: the start of year 0.
    pub fn earliest() -> (r: LocalDateTime)
        ensures
            r == earliest_instant(),
            r.wf(),
    {
        LocalDateTime { year: 0, month: 1, day: 1, hour: 0, minute: 0, second: 0 }
    }

    /// The latest instant that has the canonical text form: the last second of year 9999.
    pub fn latest() -> (r: LocalDateTime)
        ensures
            r == latest_instant(),
            r.wf(),
    {
        LocalDateTime { year: 9999, month: 12, day: 31, hour: 23, minute: 59, second: 59 }
    }

    /// Midnight at the start of the same day.
    pub fn midnight(&self) -> (r: LocalDateTime)
        ensures
            r == self.start_of_day(),
    {
        LocalDateTime { hour: 0, minute: 0, second: 0, ..*self }
    }

    /// The current local time, or `None` where the clock shows a year outside 0 to 9999.
    pub fn now() -> (r: Option<LocalDateTime>)
        ensures
            r matches Some(t) ==> t.wf(),
    {
        let t = clock_now();
        LocalDateTime::new(t.year, t.month, t.day, t.hour, t.minute, t.second)
    }

    /// Reads the canonical text form: `None` unless `s` is exactly the
    /// canonical text of an instant with a year from 0 to 9999.
    pub fn parse(s: &str) -> (r: Option<LocalDateTime>)
        ensures
            r == read_timestamp(s@),
            r is Some <==> exists|t: LocalDateTime| t.wf() && #[trigger] t.text() == s@,
            forall|t: LocalDateTime| #[trigger] t.text() == s@ && t.wf() ==> r == Some(t),
    {
        let read = parse_canonical(s);
        let r = match read {
            Some(t) => match LocalDateTime::new(t.year, t.month, t.day, t.hour, t.minute, t.second) {
                Some(t) => {
                    if t.to_text() == String::from_str(s) {
                        Some(t)
                    } else {
                        None
                    }
                },
                None => None,
            },
            None => None,
        };
        proof {
            if exists|t: LocalDateTime| t.wf() && #[trigger] t.text() == s@ {
                let w = choose|t: LocalDateTime| t.wf() && #[trigger] t.text() == s@;
                assert(read == Some(w));
                lemma_read_canonical(w);
            } else {
                assert(r is None);
            }
        }
        r
    }

    /// The display form `YYYY-MM-DD HH:MM:SS`.
    pub fn to_display_text(&self) -> (r: String)
        requires
            self.wf(),
        ensures
            r@ == self.display_text(),
    {
        let text = self.to_text();
        let mut r = String::from_str(text.as_str().substring_char(0, 10));
        r.append(" ");
        r.append(text.as_str().substring_char(11, 19));
        proof {
            reveal_strlit(" ");
            assert(r@ =~= self.display_text());
        }
        r
    }

    /// The canonical text form.
    pub fn to_text(&self) -> (r: String)
        requires
            self.wf(),
        ensures
            r@ == self.text(),
    {
        format_canonical(self)
    }

    /// The same time of day `n` days later; `None` where that day lies after year 9999.
    pub fn add_days(&self, n: u32) -> (r: Option<LocalDateTime>)
        requires
            self.wf(),
        ensures
            r == (if storable_year(
                date_after(self.year as int, self.month as int, self.day as int, n as nat).0,
            ) {
                Some(
                    self.on_date(
                        date_after(self.year as int, self.month as int, self.day as int, n as nat),
                    ),
                )
            } else {
                None
            }),
            r matches Some(t) ==> t.wf(),
    {
        proof {
            lemma_shifted_dates_valid(self.year as int, self.month as int, self.day as int, n as nat);
        }
        match checked_add_days(self.year, self.month, self.day, n) {
            Some(v) => {
                if 0 <= v.0 && v.0 <= 9999 {
                    Some(LocalDateTime { year: v.0, month: v.1, day: v.2, ..*self })
                } else {
                    None
                }
            },
            None => None,
        }
    }

    /// The same time of day `n` days earlier; `None` where that day lies before year 0.
    pub fn sub_days(&self, n: u32) -> (r: Option<LocalDateTime>)
        requires
            self.wf(),
        ensures
            r == (if storable_year(
                date_before(self.year as int, self.month as int, self.day as int, n as nat).0,
            ) {
                Some(
                    self.on_date(
                        date_before(self.year as int, self.month as int, self.day as int, n as nat),
                    ),
                )
            } else {
                None
            }),
            r matches Some(t) ==> t.wf(),
    {
        proof {
            lemma_shifted_dates_valid(self.year as int, self.month as int, self.day as int, n as nat);
        }
        match checked_sub_days(self.year, self.month, self.day, n) {
            Some(v) => {
                if 0 <= v.0 && v.0 <= 9999 {
                    Some(LocalDateTime { year: v.0, month: v.1, day: v.2, ..*self })
                } else {
                    None
                }
            },
            None => None,
        }
    }

    /// The weekday, counted from Monday (0) to Sunday (6).
    pub fn days_from_monday(&self) -> (r: u32)
        requires
            self.wf(),
        ensures
            r == weekday_from_monday(self.year as int, self.month as int, self.day as int),
            r < 7,
    {
        weekday_of(self.year, self.month, self.day)
    }

    /// Whether `self` is not later than `other`.
    pub fn is_not_after(&self, other: &LocalDateTime) -> (r: bool)
        ensures
            r == self.not_after(*other),
    {
        if self.year != other.year {
            self.year < other.year
        } else if self.month != other.month {
            self.month < other.month
        } else if self.day != other.day {
            self.day < other.day
        } else if self.hour != other.hour {
            self.hour < other.hour
        } else if self.minute != other.minute {
            self.minute < other.minute
        } else {
            self.second <= other.second
        }
    }
}

/// The day after a day of the calendar is a day of the calendar, and so is the day before.
pub proof fn lemma_neighbour_dates_valid(y: int, m: int, d: int)
    requires
        valid_date(y, m, d),
    ensures
        valid_date(next_date(y, m, d).0, next_date(y, m, d).1, next_date(y, m, d).2),
        valid_date(prev_date(y, m, d).0, prev_date(y, m, d).1, prev_date(y, m, d).2),
{
}

/// The day before a day has the day number one less.
pub proof fn lemma_prev_day_number(y: int, m: int, d: int)
    requires
        valid_date(y, m, d),
    ensures
        day_number(prev_date(y, m, d).0, prev_date(y, m, d).1, prev_date(y, m, d).2) == day_number(
            y,
            m,
            d,
        ) - 1,
{
    if d == 1 && m == 1 {
        lemma_year_length(y - 1);
        lemma_december(y - 1);
    }
}

/// The days before December.
proof fn lemma_december(y: int)
    ensures
        days_before_month(y, 12) == 334 + (if is_leap_year(y) {
            1int
        } else {
            0int
        }),
{
    reveal_with_fuel(days_before_month, 12);
}

/// One more multiple of `4` lies below `z + 1` than below `z` exactly when `z` is one.
proof fn lemma_count_step(z: int)
    ensures
        (z + 4) / 4 - (z + 3) / 4 == (if z % 4 == 0 {
            1int
        } else {
            0int
        }),
        (z + 100) / 100 - (z + 99) / 100 == (if z % 100 == 0 {
            1int
        } else {
            0int
        }),
        (z + 400) / 400 - (z + 399) / 400 == (if z % 400 == 0 {
            1int
        } else {
            0int
        }),
{
}

/// A year has 366 days when it is a leap year, else 365.
proof fn lemma_year_length(z: int)
    ensures
        days_before_year(z + 1) == days_before_year(z) + 365 + (if is_leap_year(z) {
            1int
        } else {
            0int
        }),
{
    lemma_count_step(z);
}

/// Going back `n` days lowers the day number by `n`.
pub proof fn lemma_date_before_day_number(y: int, m: int, d: int, n: nat)
    requires
        valid_date(y, m, d),
    ensures
        day_number(date_before(y, m, d, n).0, date_before(y, m, d, n).1, date_before(y, m, d, n).2)
            == day_number(y, m, d) - n,
    decreases n,
{
    if n > 0 {
        let p = prev_date(y, m, d);
        lemma_prev_day_number(y, m, d);
        lemma_neighbour_dates_valid(y, m, d);
        lemma_date_before_day_number(p.0, p.1, p.2, (n - 1) as nat);
    }
}

/// Moving any number of days forward or back from a day of the calendar stays in the calendar.
pub proof fn lemma_shifted_dates_valid(y: int, m: int, d: int, n: nat)
    requires
        valid_date(y, m, d),
    ensures
        valid_date(date_after(y, m, d, n).0, date_after(y, m, d, n).1, date_after(y, m, d, n).2),
        valid_date(
            date_before(y, m, d, n).0,
            date_before(y, m, d, n).1,
            date_before(y, m, d, n).2,
        ),
    decreases n,
{
    if n > 0 {
        lemma_neighbour_dates_valid(y, m, d);
        let a = next_date(y, m, d);
        let b = prev_date(y, m, d);
        lemma_shifted_dates_valid(a.0, a.1, a.2, (n - 1) as nat);
        lemma_shifted_dates_valid(b.0, b.1, b.2, (n - 1) as nat);
    }
}

/// What chrono reads from a text in the canonical layout, as plain fields.
pub uninterp spec fn parsed_timestamp(s: Seq<char>) -> Option<LocalDateTime>;

/// Relies on chrono's `Local::now`: the current local wall-clock time, whose
/// fields always name an instant of the calendar.
#[verifier::external_body]
fn clock_now() -> (r: LocalDateTime)
    ensures
        r.valid(),
{
    let now = chrono::Local::now();
    LocalDateTime {
        year: now.year(),
        month: now.month(),
        day: now.day(),
        hour: now.hour(),
        minute: now.minute(),
        second: now.second(),
    }
}

/// Relies on chrono's `NaiveDate::weekday` with `Weekday::num_days_from_monday`.
#[verifier::external_body]
fn weekday_of(year: i32, month: u32, day: u32) -> (r: u32)
    requires
        valid_date(year as int, month as int, day as int),
        storable_year(year as int),
    ensures
        r == weekday_from_monday(year as int, month as int, day as int),
        r < 7,
{
    chrono::NaiveDate::from_ymd_opt(year, month, day).unwrap().weekday().num_days_from_monday()
}

/// Relies on chrono's `NaiveDate::checked_add_days`: the day `n` days later,
/// `None` only where it falls outside chrono's range of years, which holds
/// every year from 0 to 9999.
#[verifier::external_body]
fn checked_add_days(year: i32, month: u32, day: u32, n: u32) -> (r: Option<(i32, u32, u32)>)
    requires
        valid_date(year as int, month as int, day as int),
        storable_year(year as int),
    ensures
        r matches Some(v) ==> (v.0 as int, v.1 as int, v.2 as int) == date_after(
            year as int,
            month as int,
            day as int,
            n as nat,
        ),
        storable_year(date_after(year as int, month as int, day as int, n as nat).0) ==> r is Some,
{
    let d = chrono::NaiveDate::from_ymd_opt(year, month, day).unwrap();
    d.checked_add_days(chrono::Days::new(n as u64)).map(|v| (v.year(), v.month(), v.day()))
}

/// Relies on chrono's `NaiveDate::checked_sub_days`: the day `n` days earlier,
/// `None` only where it falls outside chrono's range of years, which holds
/// every year from 0 to 9999.
#[verifier::external_body]
fn checked_sub_days(year: i32, month: u32, day: u32, n: u32) -> (r: Option<(i32, u32, u32)>)
    requires
        valid_date(year as int, month as int, day as int),
        storable_year(year as int),
    ensures
        r matches Some(v) ==> (v.0 as int, v.1 as int, v.2 as int) == date_before(
            year as int,
            month as int,
            day as int,
            n as nat,
        ),
        storable_year(date_before(year as int, month as int, day as int, n as nat).0) ==> r is Some,
{
    let d = chrono::NaiveDate::from_ymd_opt(year, month, day).unwrap();
    d.checked_sub_days(chrono::Days::new(n as u64)).map(|v| (v.year(), v.month(), v.day()))
}

/// Relies on chrono's `NaiveDateTime::parse_from_str` with the layout
/// `%Y-%m-%dT%H:%M:%S`: what it accepts names an instant of the calendar, and
/// the canonical text of an instant reads back as that instant.
#[verifier::external_body]
fn parse_canonical(s: &str) -> (r: Option<LocalDateTime>)
    ensures
        r == parsed_timestamp(s@),
        r matches Some(t) ==> t.valid(),
        forall|t: LocalDateTime| #[trigger] t.text() == s@ && t.wf() ==> r == Some(t),
{
    chrono::NaiveDateTime::parse_from_str(s, "%Y-%m-%dT%H:%M:%S").ok().map(|v| LocalDateTime {
        year: v.year(),
        month: v.month(),
        day: v.day(),
        hour: v.hour(),
        minute: v.minute(),
        second: v.second(),
    })
}

/// Relies on chrono's `NaiveDateTime::format` with the layout
/// `%Y-%m-%dT%H:%M:%S`, which writes a year from 0 to 9999 as four digits and
/// every other field as two.
#[verifier::external_body]
fn format_canonical(t: &LocalDateTime) -> (r: String)
    requires
        t.wf(),
    ensures
        r@ == t.text(),
{
    let d = chrono::NaiveDate::from_ymd_opt(t.year, t.month, t.day).unwrap();
    d.and_hms_opt(t.hour, t.minute, t.second).unwrap().format("%Y-%m-%dT%H:%M:%S").to_string()
}

/// The store's order on texts: code point by code point, and a text before
/// every longer text that it begins.
pub open spec fn text_le(a: Seq<char>, b: Seq<char>) -> bool
    decreases a.len(),
{
    if a.len() == 0 {
        true
    } else if b.len() == 0 {
        false
    } else if a[0] != b[0] {
        (a[0] as u32) < (b[0] as u32)
    } else {
        text_le(a.drop_first(), b.drop_first())
    }
}

/// Comparing two texts that begin with pieces of equal length: the pieces
/// decide where they differ, the rests where they agree.
proof fn lemma_text_le_concat(xs: Seq<char>, ys: Seq<char>, xt: Seq<char>, yt: Seq<char>)
    requires
        xs.len() == ys.len(),
    ensures
        text_le(xs + xt, ys + yt) == (if xs == ys {
            text_le(xt, yt)
        } else {
            text_le(xs, ys)
        }),
    decreases xs.len(),
{
    if xs.len() == 0 {
        assert(xs + xt =~= xt);
        assert(ys + yt =~= yt);
        assert(xs =~= ys);
    } else {
        assert((xs + xt)[0] == xs[0]);
        assert((ys + yt)[0] == ys[0]);
        if xs[0] == ys[0] {
            assert((xs + xt).drop_first() =~= xs.drop_first() + xt);
            assert((ys + yt).drop_first() =~= ys.drop_first() + yt);
            lemma_text_le_concat(xs.drop_first(), ys.drop_first(), xt, yt);
            if xs.drop_first() == ys.drop_first() {
                assert forall|i: int| 0 <= i < xs.len() implies xs[i] == ys[i] by {
                    if i > 0 {
                        assert(xs[i] == xs.drop_first()[i - 1]);
                        assert(ys[i] == ys.drop_first()[i - 1]);
                    }
                }
                assert(xs =~= ys);
            } else {
                assert(xs != ys);
            }
        } else {
            assert(xs != ys);
        }
    }
}

/// Digits are ordered as the numbers they write.
proof fn lemma_digit_code(n: int)
    requires
        0 <= n <= 9,
    ensures
        digit(n) as u32 == 48 + n,
{
}

/// Two-digit texts compare as their numbers.
proof fn lemma_two_digits_order(a: int, b: int)
    requires
        0 <= a <= 99,
        0 <= b <= 99,
    ensures
        text_le(two_digits(a), two_digits(b)) == (a <= b),
        (two_digits(a) == two_digits(b)) == (a == b),
{
    lemma_digit_code(a / 10);
    lemma_digit_code(a % 10);
    lemma_digit_code(b / 10);
    lemma_digit_code(b % 10);
    let (x, y) = (two_digits(a), two_digits(b));
    reveal_with_fuel(text_le, 3);
    assert(x.drop_first().drop_first().len() == 0);
    assert(x.drop_first()[0] == x[1]);
    assert(y.drop_first()[0] == y[1]);
    assert(a == 10 * (a / 10) + a % 10);
    assert(b == 10 * (b / 10) + b % 10);
    if a == b {
        assert(x =~= y);
    } else if x == y {
        assert(x[0] == y[0] && x[1] == y[1]);
    }
}

/// Four-digit texts compare as their numbers.
proof fn lemma_four_digits_order(a: int, b: int)
    requires
        0 <= a <= 9999,
        0 <= b <= 9999,
    ensures
        text_le(four_digits(a), four_digits(b)) == (a <= b),
        (four_digits(a) == four_digits(b)) == (a == b),
{
    lemma_two_digits_order(a / 100, b / 100);
    lemma_two_digits_order(a % 100, b % 100);
    let (x, y) = (four_digits(a), four_digits(b));
    assert(a == 100 * (a / 100) + a % 100);
    assert(b == 100 * (b / 100) + b % 100);
    lemma_text_le_concat(two_digits(a / 100), two_digits(b / 100), two_digits(a % 100), two_digits(b % 100));
    if x == y {
        assert(x.subrange(0, 2) =~= two_digits(a / 100));
        assert(y.subrange(0, 2) =~= two_digits(b / 100));
        assert(x.subrange(2, 4) =~= two_digits(a % 100));
        assert(y.subrange(2, 4) =~= two_digits(b % 100));
    }
}

/// A separator followed by two digits.
spec fn field(sep: char, n: int) -> Seq<char> {
    seq![sep] + two_digits(n)
}

/// Fields after equal separators compare as their numbers.
proof fn lemma_field_order(sep: char, a: int, b: int)
    requires
        0 <= a <= 99,
        0 <= b <= 99,
    ensures
        forall|xt: Seq<char>, yt: Seq<char>|
            #![trigger text_le(field(sep, a) + xt, field(sep, b) + yt)]
            text_le(field(sep, a) + xt, field(sep, b) + yt) == (if a == b {
                text_le(xt, yt)
            } else {
                a < b
            }),
{
    lemma_two_digits_order(a, b);
    assert forall|xt: Seq<char>, yt: Seq<char>|
        #![trigger text_le(field(sep, a) + xt, field(sep, b) + yt)]
        text_le(field(sep, a) + xt, field(sep, b) + yt) == (if a == b {
            text_le(xt, yt)
        } else {
            a < b
        }) by {
        lemma_text_le_concat(field(sep, a), field(sep, b), xt, yt);
        lemma_text_le_concat(seq![sep], seq![sep], two_digits(a), two_digits(b));
        if field(sep, a) == field(sep, b) {
            assert(field(sep, a).drop_first() =~= two_digits(a));
            assert(field(sep, b).drop_first() =~= two_digits(b));
        }
        if a == b {
            assert(field(sep, a) =~= field(sep, b));
        }
    }
}

/// Every text is not after itself.
proof fn lemma_text_le_refl(x: Seq<char>)
    ensures
        text_le(x, x),
    decreases x.len(),
{
    if x.len() > 0 {
        lemma_text_le_refl(x.drop_first());
    }
}

/// Two instants with the same canonical text are the same instant.
pub proof fn lemma_text_injective(a: LocalDateTime, b: LocalDateTime)
    requires
        a.wf(),
        b.wf(),
        a.text() == b.text(),
    ensures
        a == b,
{
    lemma_text_le_refl(a.text());
    lemma_text_order(a, b);
    lemma_text_order(b, a);
}

/// The canonical text of an instant reads back as that instant.
pub proof fn lemma_read_canonical(t: LocalDateTime)
    requires
        t.wf(),
    ensures
        read_timestamp(t.text()) == Some(t),
{
    let w = choose|w: LocalDateTime| w.wf() && #[trigger] w.text() == t.text();
    lemma_text_injective(w, t);
}

/// The store's order on canonical texts is the order of the instants in time.
pub proof fn lemma_text_order(a: LocalDateTime, b: LocalDateTime)
    requires
        a.wf(),
        b.wf(),
    ensures
        text_le(a.text(), b.text()) == a.not_after(b),
{
    let e = Seq::<char>::empty();
    let ta = four_digits(a.year as int) + (field('-', a.month as int) + (field('-', a.day as int)
        + (field('T', a.hour as int) + (field(':', a.minute as int) + (field(
        ':',
        a.second as int,
    ) + e)))));
    let tb = four_digits(b.year as int) + (field('-', b.month as int) + (field('-', b.day as int)
        + (field('T', b.hour as int) + (field(':', b.minute as int) + (field(
        ':',
        b.second as int,
    ) + e)))));
    assert(ta =~= a.text());
    assert(tb =~= b.text());
    lemma_four_digits_order(a.year as int, b.year as int);
    lemma_text_le_concat(
        four_digits(a.year as int),
        four_digits(b.year as int),
        field('-', a.month as int) + (field('-', a.day as int) + (field('T', a.hour as int) + (
        field(':', a.minute as int) + (field(':', a.second as int) + e)))),
        field('-', b.month as int) + (field('-', b.day as int) + (field('T', b.hour as int) + (
        field(':', b.minute as int) + (field(':', b.second as int) + e)))),
    );
    lemma_field_order('-', a.month as int, b.month as int);
    lemma_field_order('-', a.day as int, b.day as int);
    lemma_field_order('T', a.hour as int, b.hour as int);
    lemma_field_order(':', a.minute as int, b.minute as int);
    lemma_field_order(':', a.second as int, b.second as int);
    assert(text_le(e, e));
}

/// Whether `a` is not after `b` in the store's order on texts.
pub fn text_not_after(a: &str, b: &str) -> (r: bool)
    ensures
        r == text_le(a@, b@),
{
    let n = a.unicode_len();
    let m = b.unicode_len();
    let mut i: usize = 0;
    assert(a@.skip(0) =~= a@);
    assert(b@.skip(0) =~= b@);
    while i < n && i < m
        invariant
            n == a@.len(),
            m == b@.len(),
            i <= n,
            i <= m,
            text_le(a@, b@) == text_le(a@.skip(i as int), b@.skip(i as int)),
        decreases n - i,
    {
        let x = a.get_char(i);
        let y = b.get_char(i);
        assert(a@.skip(i as int)[0] == x);
        assert(b@.skip(i as int)[0] == y);
        if x != y {
            return (x as u32) < (y as u32);
        }
        assert(a@.skip(i as int).drop_first() =~= a@.skip(i + 1));
        assert(b@.skip(i as int).drop_first() =~= b@.skip(i + 1));
        i = i + 1;
    }
    i == n
}

/// The number of days of a month, computed.
fn month_length(year: i32, month: u32) -> (r: u32)
    requires
        1 <= month <= 12,
        0 <= year,
    ensures
        r == days_in_month(year as int, month as int),
{
    let y = year as u32;
    if month == 2 {
        if (y % 4 == 0 && y % 100 != 0) || y % 400 == 0 {
            29
        } else {
            28
        }
    } else if month == 4 || month == 6 || month == 9 || month == 11 {
        30
    } else {
        31
    }
}

} // verus!
