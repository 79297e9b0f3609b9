//! Calendar dates and clock times.
//!
//! A [`Date`] holds the year, month and day it names, always a real day of the
//! proleptic Gregorian calendar inside the range `chrono` supports. The
//! arithmetic that moves between dates (adding days, the weekday, the ISO week,
//! reading `YYYY-MM-DD`) is done by `chrono`; its contracts are stated over
//! [`day_number`], the count of days since 1 January of the year 1.
use chrono::{Datelike, Days, NaiveDate, NaiveTime, Timelike};
use vstd::prelude::*;

verus! {

/// The first year `chrono` represents.
pub const MIN_YEAR: i32 = -262143;

/// The last year `chrono` represents.
pub const MAX_YEAR: i32 = 262142;

pub open spec fn is_leap(y: int) -> bool {
    (y % 4 == 0 && y % 100 != 0) || y % 400 == 0
}

pub open spec fn year_len(y: int) -> int {
    if is_leap(y) {
        366
    } else {
        365
    }
}

pub open spec fn days_in_month(y: int, m: int) -> int {
    if m == 2 {
        if is_leap(y) {
            29
        } else {
            28
        }
    } else if m == 4 || m == 6 || m == 9 || m == 11 {
        30
    } else {
        31
    }
}

/// Days of the year `y` before the first of month `m`.
pub open spec fn days_before_month(y: int, m: int) -> int {
    let base: int = if m <= 1 {
        0
    } else if m == 2 {
        31
    } else if m == 3 {
        59
    } else if m == 4 {
        90
    } else if m == 5 {
        120
    } else if m == 6 {
        151
    } else if m == 7 {
        181
    } else if m == 8 {
        212
    } else if m == 9 {
        243
    } else if m == 10 {
        273
    } else if m == 11 {
        304
    } else {
        334
    };
    base + if m > 2 && is_leap(y) {
        1int
    } else {
        0
    }
}

/// Days from 1 January of the year 1 to 1 January of year `y`.
#[verifier::opaque]
pub open spec fn days_before_year(y: int) -> int {
    let p = y - 1;
    365 * p + p / 4 - p / 100 + p / 400
}

/// The number of the day `y-m-d`: 0 is 1 January of the year 1, a Monday.
pub open spec fn day_number(y: int, m: int, d: int) -> int {
    days_before_year(y) + days_before_month(y, m) + d - 1
}

pub open spec fn valid_ymd(y: int, m: int, d: int) -> bool {
    &&& MIN_YEAR <= y <= MAX_YEAR
    &&& 1 <= m <= 12
    &&& 1 <= d <= days_in_month(y, m)
}

pub open spec fn first_day_number() -> int {
    day_number(MIN_YEAR as int, 1, 1)
}

pub open spec fn last_day_number() -> int {
    day_number(MAX_YEAR as int, 12, 31)
}

/// Whether some date of the supported range has the number `n`.
pub open spec fn in_range(n: int) -> bool {
    first_day_number() <= n <= last_day_number()
}

/// 0 is Monday, 6 is Sunday.
pub open spec fn weekday_of(n: int) -> int {
    n % 7
}

/// The year whose days include the day number `n`.
pub open spec fn year_of_number(n: int) -> int {
    choose|y: int| #[trigger] days_before_year(y) <= n < days_before_year(y + 1)
}

/// The ISO week number of the day `n`: the week that holds the Thursday of
/// `n`'s Monday-to-Sunday week, counted within the year of that Thursday.
pub open spec fn iso_week_of(n: int) -> int {
    let thursday = n - weekday_of(n) + 3;
    (thursday - days_before_year(year_of_number(thursday))) / 7 + 1
}

/// A date as `chrono` writes it with `%Y-%m-%d`: the year in at least four
/// digits, with a sign outside 0 to 9999, then the month and the day in two.
pub open spec fn iso_date_text(v: (int, int, int)) -> Seq<char> {
    if 0 <= v.0 <= 9999 {
        ymd_text(v)
    } else {
        (if v.0 < 0 {
            "-"@
        } else {
            "+"@
        }) + crate::text::pad4(crate::minutes::abs(v.0) as nat) + "-"@ + crate::text::pad2(v.1 as nat) + "-"@
            + crate::text::pad2(v.2 as nat)
    }
}

/// `YYYY-MM-DD`, the year in four digits.
pub open spec fn ymd_text(v: (int, int, int)) -> Seq<char> {
    crate::text::pad4(v.0 as nat) + "-"@ + crate::text::pad2(v.1 as nat) + "-"@ + crate::text::pad2(
        v.2 as nat,
    )
}

/// What `chrono` reads from text with the format `%Y-%m-%d`, as year, month
/// and day.
pub uninterp spec fn chrono_ymd_text(s: Seq<char>) -> Option<(int, int, int)>;

/// What `chrono` reads from text with the format `%H:%M`, as hour and minute.
pub uninterp spec fn chrono_hm_text(s: Seq<char>) -> Option<(int, int)>;

pub proof fn lemma_year_step(y: int)
    ensures
        days_before_year(y + 1) == days_before_year(y) + year_len(y),
{
    reveal(days_before_year);
    let p = y - 1;
    assert(y / 4 == p / 4 + (if y % 4 == 0 { 1int } else { 0 }));
    assert(y / 100 == p / 100 + (if y % 100 == 0 { 1int } else { 0 }));
    assert(y / 400 == p / 400 + (if y % 400 == 0 { 1int } else { 0 }));
}

pub proof fn lemma_year_mono(a: int, b: int)
    requires
        a < b,
    ensures
        days_before_year(a) + year_len(a) <= days_before_year(b),
    decreases b - a,
{
    lemma_year_step(a);
    if a + 1 < b {
        lemma_year_mono(a + 1, b);
    }
}

pub proof fn lemma_month_step(y: int, m: int)
    requires
        1 <= m <= 12,
    ensures
        m < 12 ==> days_before_month(y, m) + days_in_month(y, m) == days_before_month(y, m + 1),
        m == 12 ==> days_before_month(y, m) + days_in_month(y, m) == year_len(y),
{
}

pub proof fn lemma_month_mono(y: int, a: int, b: int)
    requires
        1 <= a < b <= 12,
    ensures
        days_before_month(y, a) + days_in_month(y, a) <= days_before_month(y, b),
    decreases b - a,
{
    lemma_month_step(y, a);
    if a + 1 < b {
        lemma_month_mono(y, a + 1, b);
    }
}

/// A valid date lies inside its year.
pub proof fn lemma_within_year(y: int, m: int, d: int)
    requires
        1 <= m <= 12,
        1 <= d <= days_in_month(y, m),
    ensures
        days_before_year(y) <= day_number(y, m, d) < days_before_year(y) + year_len(y),
{
    lemma_month_step(y, m);
    if m < 12 {
        lemma_month_step(y, 12);
        if m + 1 < 12 {
            lemma_month_mono(y, m + 1, 12);
        }
    }
}

pub open spec fn ymd_before(a: (int, int, int), b: (int, int, int)) -> bool {
    a.0 < b.0 || (a.0 == b.0 && (a.1 < b.1 || (a.1 == b.1 && a.2 < b.2)))
}

/// For valid dates the calendar order is the order of their numbers.
pub proof fn lemma_order(a: (int, int, int), b: (int, int, int))
    requires
        1 <= a.1 <= 12,
        1 <= a.2 <= days_in_month(a.0, a.1),
        1 <= b.1 <= 12,
        1 <= b.2 <= days_in_month(b.0, b.1),
    ensures
        ymd_before(a, b) <==> day_number(a.0, a.1, a.2) < day_number(b.0, b.1, b.2),
        a == b <==> day_number(a.0, a.1, a.2) == day_number(b.0, b.1, b.2),
{
    lemma_within_year(a.0, a.1, a.2);
    lemma_within_year(b.0, b.1, b.2);
    if a.0 < b.0 {
        lemma_year_mono(a.0, b.0);
    } else if b.0 < a.0 {
        lemma_year_mono(b.0, a.0);
    } else if a.1 < b.1 {
        lemma_month_mono(a.0, a.1, b.1);
    } else if b.1 < a.1 {
        lemma_month_mono(a.0, b.1, a.1);
    }
}

/// A calendar day. Ordered by year, then month, then day, which is the order
/// of time.
#[derive(Clone, Copy, Debug, PartialEq, Eq, Structural, PartialOrd, Ord, Hash)]
pub struct Date {
    year: i32,
    month: u32,
    day: u32,
}

impl View for Date {
    type V = (int, int, int);

    closed spec fn view(&self) -> (int, int, int) {
        (self.year as int, self.month as int, self.day as int)
    }
}

pub open spec fn num_of(v: (int, int, int)) -> int {
    day_number(v.0, v.1, v.2)
}

impl Date {
    #[verifier::type_invariant]
    pub closed spec fn inv(self) -> bool {
        valid_ymd(self.year as int, self.month as int, self.day as int)
    }

    /// The day's number, see [`day_number`].
    pub open spec fn num(self) -> int {
        num_of(self@)
    }

    pub proof fn lemma_inv(self)
        requires
            self.inv(),
        ensures
            valid_ymd(self@.0, self@.1, self@.2),
    {
    }

    /// Two dates with the same view are the same date.
    pub proof fn lemma_view_eq(self, other: Date)
        ensures
            self@ == other@ <==> self == other,
    {
    }

    /// States that `self` is a valid date (its type invariant).
    pub fn valid(&self)
        ensures
            valid_ymd(self@.0, self@.1, self@.2),
    {
        proof {
            use_type_invariant(self);
        }
    }

    pub fn year(&self) -> (y: i32)
        ensures
            y == self@.0,
    {
        self.year
    }

    pub fn month(&self) -> (m: u32)
        ensures
            m == self@.1,
    {
        self.month
    }

    pub fn day(&self) -> (d: u32)
        ensures
            d == self@.2,
    {
        self.day
    }

    /// Whether `self` comes before `other`.
    pub fn before(&self, other: &Date) -> (r: bool)
        ensures
            r == (self.num() < other.num()),
    {
        proof {
            use_type_invariant(self);
            use_type_invariant(other);
            lemma_order(self@, other@);
        }
        self.year < other.year || (self.year == other.year && (self.month < other.month || (
        self.month == other.month && self.day < other.day)))
    }

    /// Whether `self` is `other` or comes before it.
    pub fn not_after(&self, other: &Date) -> (r: bool)
        ensures
            r == (self.num() <= other.num()),
    {
        proof {
            use_type_invariant(self);
            use_type_invariant(other);
            lemma_order(self@, other@);
        }
        !other.before(self)
    }

    /// Whether `self` and `other` are the same day.
    pub fn same(&self, other: &Date) -> (r: bool)
        ensures
            r == (self.num() == other.num()),
            r == (self == other),
    {
        proof {
            use_type_invariant(self);
            use_type_invariant(other);
            lemma_order(self@, other@);
        }
        self.year == other.year && self.month == other.month && self.day == other.day
    }

    /// The later of two dates.
    pub fn max(self, other: Date) -> (r: Date)
        ensures
            r == (if self.num() < other.num() { other } else { self }),
    {
        if self.before(&other) {
            other
        } else {
            self
        }
    }

    /// The earlier of two dates.
    pub fn min(self, other: Date) -> (r: Date)
        ensures
            r == (if other.num() < self.num() { other } else { self }),
    {
        if other.before(&self) {
            other
        } else {
            self
        }
    }

    /// `chrono::NaiveDate::from_ymd_opt`: the date `y-m-d`, if there is one.
    #[verifier::external_body]
    pub fn from_ymd_opt(y: i32, m: u32, d: u32) -> (r: Option<Date>)
        ensures
            r is Some <==> valid_ymd(y as int, m as int, d as int),
            r matches Some(x) ==> x@ == (y as int, m as int, d as int),
    {
        NaiveDate::from_ymd_opt(y, m, d).map(|x| Date { year: x.year(), month: x.month(), day: x.day() })
    }

    /// `chrono::NaiveDate::checked_add_days`: the date `n` days later, if it is
    /// in range.
    #[verifier::external_body]
    pub fn checked_add_days(self, n: u64) -> (r: Option<Date>)
        ensures
            r is Some <==> in_range(self.num() + n),
            r matches Some(x) ==> x.num() == self.num() + n,
    {
        let x = NaiveDate::from_ymd_opt(self.year, self.month, self.day).unwrap();
        x.checked_add_days(Days::new(n)).map(|x| Date { year: x.year(), month: x.month(), day: x.day() })
    }

    /// `chrono::NaiveDate::checked_sub_days`: the date `n` days earlier, if it
    /// is in range.
    #[verifier::external_body]
    pub fn checked_sub_days(self, n: u64) -> (r: Option<Date>)
        ensures
            r is Some <==> in_range(self.num() - n),
            r matches Some(x) ==> x.num() == self.num() - n,
    {
        let x = NaiveDate::from_ymd_opt(self.year, self.month, self.day).unwrap();
        x.checked_sub_days(Days::new(n)).map(|x| Date { year: x.year(), month: x.month(), day: x.day() })
    }

    /// `chrono::NaiveDate::succ_opt`: the next day, unless `self` is the last
    /// one `chrono` represents.
    #[verifier::external_body]
    pub fn succ_opt(&self) -> (r: Option<Date>)
        ensures
            r is Some <==> in_range(self.num() + 1),
            r matches Some(x) ==> x.num() == self.num() + 1,
    {
        let x = NaiveDate::from_ymd_opt(self.year, self.month, self.day).unwrap();
        x.succ_opt().map(|x| Date { year: x.year(), month: x.month(), day: x.day() })
    }

    /// `chrono::NaiveDate::pred_opt`: the day before, unless `self` is the
    /// first one `chrono` represents.
    #[verifier::external_body]
    pub fn pred_opt(&self) -> (r: Option<Date>)
        ensures
            r is Some <==> in_range(self.num() - 1),
            r matches Some(x) ==> x.num() == self.num() - 1,
    {
        let x = NaiveDate::from_ymd_opt(self.year, self.month, self.day).unwrap();
        x.pred_opt().map(|x| Date { year: x.year(), month: x.month(), day: x.day() })
    }

    /// `chrono::Datelike::weekday`, as days from Monday: 0 is Monday, 6 Sunday.
    #[verifier::external_body]
    pub fn weekday(&self) -> (w: u32)
        ensures
            w as int == weekday_of(self.num()),
    {
        let x = NaiveDate::from_ymd_opt(self.year, self.month, self.day).unwrap();
        x.weekday().num_days_from_monday()
    }

    /// `chrono::Datelike::iso_week`, the week number.
    #[verifier::external_body]
    pub fn iso_week(&self) -> (w: u32)
        ensures
            w as int == iso_week_of(self.num()),
            1 <= w <= 53,
    {
        let x = NaiveDate::from_ymd_opt(self.year, self.month, self.day).unwrap();
        x.iso_week().week()
    }

    /// `chrono::Datelike::num_days_from_ce`: the day's number counted from 1
    /// January of the year 1, which is day 1.
    #[verifier::external_body]
    pub fn num_days_from_ce(&self) -> (r: i32)
        ensures
            r == self.num() + 1,
    {
        let x = NaiveDate::from_ymd_opt(self.year, self.month, self.day).unwrap();
        x.num_days_from_ce()
    }

    /// `chrono::NaiveDate::format` with `%Y-%m-%d`, as a `String`: the
    /// year zero-padded to four digits, with a `+` or `-` in front outside
    /// the years 0 to 9999, then the month and the day in two digits, joined
    /// by hyphens.
    #[verifier::external_body]
    pub fn to_text(&self) -> (r: String)
        ensures
            r@ == iso_date_text(self@),
    {
        NaiveDate::from_ymd_opt(self.year, self.month, self.day).unwrap().format("%Y-%m-%d").to_string()
    }

    /// `chrono::NaiveDate::parse_from_str` with the format `%Y-%m-%d`.
    #[verifier::external_body]
    pub fn parse_ymd(s: &str) -> (r: Option<Date>)
        ensures
            r is Some <==> chrono_ymd_text(s@) is Some,
            r matches Some(x) ==> chrono_ymd_text(s@) == Some(x@),
    {
        NaiveDate::parse_from_str(s, "%Y-%m-%d").ok().map(
            |x| Date { year: x.year(), month: x.month(), day: x.day() },
        )
    }
}

/// A time of day, to the second.
#[derive(Clone, Copy, Debug, PartialEq, Eq, Structural, PartialOrd, Ord, Hash)]
pub struct Time {
    hour: u32,
    minute: u32,
    second: u32,
}

impl View for Time {
    type V = (int, int, int);

    closed spec fn view(&self) -> (int, int, int) {
        (self.hour as int, self.minute as int, self.second as int)
    }
}

/// Minutes since midnight of a time's view.
pub open spec fn minute_of_day(v: (int, int, int)) -> int {
    v.0 * 60 + v.1
}

impl Time {
    #[verifier::type_invariant]
    pub closed spec fn inv(self) -> bool {
        self.hour < 24 && self.minute < 60 && self.second < 60
    }

    /// The minutes since midnight.
    pub open spec fn mins(self) -> int {
        minute_of_day(self@)
    }

    /// Two times with the same view are the same time.
    pub proof fn lemma_view_eq(self, other: Time)
        ensures
            self@ == other@ <==> self == other,
    {
    }

    /// States that `self` is a valid time (its type invariant).
    pub fn valid(&self)
        ensures
            0 <= self@.0 < 24,
            0 <= self@.1 < 60,
            0 <= self@.2 < 60,
            0 <= self.mins() < 1440,
    {
        proof {
            use_type_invariant(self);
        }
    }

    /// The time `h:m:s`, if it is one: hours below 24, minutes and seconds
    /// below 60.
    pub fn from_hms_opt(h: u32, m: u32, s: u32) -> (r: Option<Time>)
        ensures
            r is Some <==> (h < 24 && m < 60 && s < 60),
            r matches Some(t) ==> t@ == (h as int, m as int, s as int),
    {
        if h < 24 && m < 60 && s < 60 {
            Some(Time { hour: h, minute: m, second: s })
        } else {
            None
        }
    }

    /// The whole minute `m` minutes after midnight.
    pub fn from_minute_of_day(m: u32) -> (t: Time)
        requires
            m < 1440,
        ensures
            t@ == ((m / 60) as int, (m % 60) as int, 0int),
            t.mins() == m,
    {
        Time { hour: m / 60, minute: m % 60, second: 0 }
    }

    pub fn hour(&self) -> (h: u32)
        ensures
            h == self@.0,
    {
        self.hour
    }

    pub fn minute(&self) -> (m: u32)
        ensures
            m == self@.1,
    {
        self.minute
    }

    pub fn second(&self) -> (s: u32)
        ensures
            s == self@.2,
    {
        self.second
    }

    /// Minutes since midnight, seconds dropped.
    pub fn minute_of_day(&self) -> (m: i32)
        ensures
            m == self.mins(),
            0 <= m < 1440,
    {
        proof {
            use_type_invariant(self);
        }
        (self.hour * 60 + self.minute) as i32
    }

    /// The same time with the seconds dropped.
    pub fn to_minute(&self) -> (t: Time)
        ensures
            t@ == (self@.0, self@.1, 0int),
    {
        proof {
            use_type_invariant(self);
        }
        Time { hour: self.hour, minute: self.minute, second: 0 }
    }

    /// `chrono::NaiveTime::parse_from_str` with the format `%H:%M`.
    #[verifier::external_body]
    pub fn parse_hm(s: &str) -> (r: Option<Time>)
        ensures
            r is Some <==> chrono_hm_text(s@) is Some,
            r matches Some(t) ==> chrono_hm_text(s@) == Some((t@.0, t@.1)) && t@.2 == 0,
    {
        NaiveTime::parse_from_str(s, "%H:%M").ok().map(
            |t| Time { hour: t.hour(), minute: t.minute(), second: t.second() },
        )
    }
}

/// A date and a time of day.
#[derive(Clone, Copy, Debug, PartialEq, Eq, Structural)]
pub struct DateTime {
    pub date: Date,
    pub time: Time,
}

/// Seconds since midnight of a time's view.
pub open spec fn second_of_day(v: (int, int, int)) -> int {
    v.0 * 3600 + v.1 * 60 + v.2
}

impl DateTime {
    pub fn new(date: Date, time: Time) -> (r: DateTime)
        ensures
            r.date == date,
            r.time == time,
    {
        DateTime { date, time }
    }

    /// Seconds since midnight of the first day.
    pub open spec fn secs(self) -> int {
        self.date.num() * 86400 + second_of_day(self.time@)
    }
}

} // verus!
