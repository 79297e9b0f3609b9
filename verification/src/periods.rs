//! The periods the screens show: months, quarters, years and ISO weeks
//! around an anchor day, and moving that anchor by whole periods.
use crate::date::{
    Date, MAX_YEAR, MIN_YEAR, day_number, days_in_month, in_range, valid_ymd, weekday_of,
};
use vstd::prelude::*;

verus! {

/// The range the statistics show around their anchor day.
#[derive(Clone, Copy, Debug, PartialEq, Eq, Structural)]
pub enum RangeKind {
    /// The ISO week (Monday … Sunday) the anchor falls in.
    Week,
    /// The calendar month the anchor falls in.
    Month,
    /// The calendar quarter the anchor falls in.
    Quarter,
    /// The calendar year the anchor falls in.
    Year,
}

/// How one bar of the chart is aggregated.
#[derive(Clone, Copy, Debug, PartialEq, Eq, Structural)]
pub enum Granularity {
    Day,
    Week,
    Month,
}

pub open spec fn granularity_of(kind: RangeKind) -> Granularity {
    match kind {
        RangeKind::Week => Granularity::Day,
        RangeKind::Month => Granularity::Week,
        _ => Granularity::Month,
    }
}

/// The bar width a range is drawn at: a week shows its days, a month its
/// weeks, a quarter and a year their months.
pub fn granularity_for(kind: RangeKind) -> (r: Granularity)
    ensures
        r == granularity_of(kind),
{
    match kind {
        RangeKind::Week => Granularity::Day,
        RangeKind::Month => Granularity::Week,
        RangeKind::Quarter | RangeKind::Year => Granularity::Month,
    }
}

/// The number of days of month `m` of year `y`.
#[verifier::spinoff_prover]
pub fn month_days(y: i32, m: u32) -> (r: u32)
    requires
        1 <= m <= 12,
    ensures
        r == days_in_month(y as int, m as int),
{
    if m == 2 {
        if (y % 4 == 0 && y % 100 != 0) || y % 400 == 0 {
            29
        } else {
            28
        }
    } else if m == 4 || m == 6 || m == 9 || m == 11 {
        30
    } else {
        31
    }
}

/// Whether the month after `m` of `y` still lies in the supported years.
pub open spec fn has_next_month(y: int, m: int) -> bool {
    MIN_YEAR <= y <= MAX_YEAR && 1 <= m <= 12 && !(y == MAX_YEAR && m == 12)
}

/// The first and the last day of month `month` of `year`.
pub fn month_range(year: i32, month: u32) -> (r: (Date, Date))
    requires
        has_next_month(year as int, month as int),
    ensures
        r.0@ == (year as int, month as int, 1int),
        r.1@ == (year as int, month as int, days_in_month(year as int, month as int)),
{
    let first = Date::from_ymd_opt(year, month, 1).unwrap();
    let last = Date::from_ymd_opt(year, month, month_days(year, month)).unwrap();
    (first, last)
}

/// 1 January and 31 December of `year`.
pub fn year_range(year: i32) -> (r: (Date, Date))
    requires
        MIN_YEAR <= year <= MAX_YEAR,
    ensures
        r.0@ == (year as int, 1int, 1int),
        r.1@ == (year as int, 12int, 31int),
{
    (Date::from_ymd_opt(year, 1, 1).unwrap(), Date::from_ymd_opt(year, 12, 31).unwrap())
}

/// The first month of the quarter month `m` falls in.
pub open spec fn quarter_start(m: int) -> int {
    (m - 1) / 3 * 3 + 1
}

/// The first and the last day of the `kind` period holding day `a`, by day
/// number.
pub open spec fn period(kind: RangeKind, a: Date) -> (int, int) {
    let (y, m) = (a@.0, a@.1);
    match kind {
        RangeKind::Week => (a.num() - weekday_of(a.num()), a.num() - weekday_of(a.num()) + 6),
        RangeKind::Month => (day_number(y, m, 1), day_number(y, m, days_in_month(y, m))),
        RangeKind::Quarter => {
            let q = quarter_start(m);
            (day_number(y, q, 1), day_number(y, q + 2, days_in_month(y, q + 2)))
        },
        RangeKind::Year => (day_number(y, 1, 1), day_number(y, 12, 31)),
    }
}

/// Whether the `kind` period holding `a` lies within the supported dates
/// (and, for the calendar periods, before the last month there is).
pub open spec fn period_exists(kind: RangeKind, a: Date) -> bool {
    match kind {
        RangeKind::Week => in_range(period(kind, a).0) && in_range(period(kind, a).1),
        RangeKind::Month => has_next_month(a@.0, a@.1),
        RangeKind::Quarter => has_next_month(a@.0, quarter_start(a@.1) + 2),
        RangeKind::Year => true,
    }
}

/// The first and the last day of the `kind` period that contains `anchor`:
/// its Monday-to-Sunday week, its month, its quarter or its year.
pub fn range_for(kind: RangeKind, anchor: Date) -> (r: (Date, Date))
    requires
        period_exists(kind, anchor),
    ensures
        r.0.num() == period(kind, anchor).0,
        r.1.num() == period(kind, anchor).1,
{
    anchor.valid();
    match kind {
        RangeKind::Week => {
            let monday = anchor.checked_sub_days(anchor.weekday() as u64).unwrap();
            (monday, monday.checked_add_days(6).unwrap())
        },
        RangeKind::Month => month_range(anchor.year(), anchor.month()),
        RangeKind::Quarter => {
            let q0 = (anchor.month() - 1) / 3 * 3 + 1;
            (month_range(anchor.year(), q0).0, month_range(anchor.year(), q0 + 2).1)
        },
        RangeKind::Year => year_range(anchor.year()),
    }
}

/// The date `n` calendar months after `v` (before, for a negative `n`),
/// keeping the day of the month where the target month has it and taking
/// that month's last day where it has not.
pub open spec fn months_later(v: (int, int, int), n: int) -> (int, int, int) {
    let k = v.1 - 1 + n;
    let y = v.0 + k / 12;
    let m = k % 12 + 1;
    (y, m, if v.2 < days_in_month(y, m) {
        v.2
    } else {
        days_in_month(y, m)
    })
}

/// Whether moving `v` by `n` months stays in the supported years, short of
/// the last month there is.
pub open spec fn months_later_exists(v: (int, int, int), n: int) -> bool {
    let k = v.1 - 1 + n;
    &&& i32::MIN <= k <= i32::MAX
    &&& has_next_month(v.0 + k / 12, k % 12 + 1)
}

/// `date` moved by `n` calendar months, keeping its day of the month where
/// the target month has one: 31 January plus a month is 28 February.
pub fn add_months(date: Date, n: i32) -> (r: Date)
    requires
        months_later_exists(date@, n as int),
    ensures
        r@ == months_later(date@, n as int),
{
    date.valid();
    let k: i64 = date.month() as i64 - 1 + n as i64;
    let (dy, m0): (i64, i64) = if k >= 0 {
        (k / 12, k % 12)
    } else {
        let p: i64 = -k;
        let q: i64 = (p + 11) / 12;
        proof {
            assert(k / 12 == -q && k % 12 == 12 * q - p) by {
                assert(k == 12 * (-q) + (12 * q - p));
                assert(0 <= 12 * q - p < 12);
            }
        }
        (-q, 12 * q - p)
    };
    let y: i32 = (date.year() as i64 + dy) as i32;
    let m: u32 = (m0 + 1) as u32;
    let last = month_range(y, m).1;
    let d = if date.day() < last.day() {
        date.day()
    } else {
        last.day()
    };
    Date::from_ymd_opt(y, m, d).unwrap()
}

/// Whether moving `anchor` by `steps` periods of `kind` stays within the
/// supported dates.
pub open spec fn shift_exists(kind: RangeKind, anchor: Date, steps: int) -> bool {
    match kind {
        RangeKind::Week => in_range(anchor.num() + 7 * steps),
        RangeKind::Month => months_later_exists(anchor@, steps),
        RangeKind::Quarter => i32::MIN <= 3 * steps <= i32::MAX && months_later_exists(
            anchor@,
            3 * steps,
        ),
        RangeKind::Year => i32::MIN <= 12 * steps <= i32::MAX && months_later_exists(
            anchor@,
            12 * steps,
        ),
    }
}

/// The anchor moved `steps` whole `kind` periods, forwards or backwards: a
/// week is seven days, a quarter three months, a year twelve.
pub fn shift_anchor(kind: RangeKind, anchor: Date, steps: i32) -> (r: Date)
    requires
        shift_exists(kind, anchor, steps as int),
    ensures
        kind == RangeKind::Week ==> r.num() == anchor.num() + 7 * steps,
        kind == RangeKind::Month ==> r@ == months_later(anchor@, steps as int),
        kind == RangeKind::Quarter ==> r@ == months_later(anchor@, 3 * steps),
        kind == RangeKind::Year ==> r@ == months_later(anchor@, 12 * steps),
{
    match kind {
        RangeKind::Week => {
            let days: i64 = 7 * steps as i64;
            if days >= 0 {
                anchor.checked_add_days(days as u64).unwrap()
            } else {
                anchor.checked_sub_days((-days) as u64).unwrap()
            }
        },
        RangeKind::Month => add_months(anchor, steps),
        RangeKind::Quarter => add_months(anchor, 3 * steps),
        RangeKind::Year => add_months(anchor, 12 * steps),
    }
}

} // verus!
