//! The month screen's table: a row per entry of a work day, one for a day
//! of another kind, a missing or an empty weekday, a weekend that nothing
//! happened on folded into one row, and a footer closing every ISO week with
//! that week's balance and the running balance; below it the month's totals.
use crate::balance::{DayStats, Rules, TodayCtx, day_balance, day_figures, day_fits, day_stats};
use crate::breaks::total;
use crate::clock::Session;
use crate::date::{Date, iso_week_of, weekday_of};
use crate::holidays::HolidayCalendar;
use crate::minutes::{Minutes, abs};
use crate::stats::{day_missing, day_net, day_target, days_fit};
use crate::tally::{amounts, days_sane, listed_minutes, lists_totals, lists_totals_add_up, magnitude, project_totals, total_view, worked};
use crate::breaks::{BreakTier, entries_sane, nets_of, tiers_sane};
use crate::balance::{day_loss, gross_of};
use crate::types::Entry;
use crate::types::{Day, DayKind, Project, kind_name};
use vstd::prelude::*;

verus! {

/// What a row of the month table stands for.
#[derive(Clone, Copy, Debug, PartialEq, Eq, Structural)]
pub enum RowKind {
    /// One entry of a work day; `first` marks the one that carries the
    /// day's label.
    Entry { entry_idx: usize, first: bool },
    /// A past weekday with no entries.
    Missing,
    /// A weekday with nothing to show yet.
    Empty,
    /// A day of another kind than work.
    Kind,
    /// A weekend day; a Saturday row also stands for a Sunday folded into it.
    Weekend,
    /// The close of an ISO week.
    WeekFooter { week: u32, week_balance: Minutes, running: Minutes },
}

/// A row of the table: its day, what it stands for and, but for a footer,
/// that day's figures.
#[derive(Debug, Clone)]
pub struct Row {
    pub date: Date,
    pub kind: RowKind,
    pub stats: Option<DayStats>,
}

/// What the month screen is built from.
pub struct MonthData {
    pub year: i32,
    pub month: u32,
    pub days: Vec<Day>,
    /// The running balance up to the last day before the month.
    pub balance_before: Minutes,
    /// The running balance through today.
    pub balance_total: Minutes,
    pub session: Option<Session>,
    pub projects: Vec<Project>,
    /// The project of the most recent entry.
    pub last_used_project: Option<String>,
    pub vacation_used_this_year: u32,
}

/// The month table and its totals.
pub struct MonthView {
    pub rows: Vec<Row>,
    pub target: Minutes,
    pub net: Minutes,
    pub balance: Minutes,
    /// (project, net minutes, colour), most minutes first.
    pub project_totals: Vec<(String, Minutes, u8)>,
    /// How many days had each kind other than work, and how many were
    /// missing, by name, for the kinds that occur.
    pub kind_counts: Vec<(String, u32)>,
}

/// What a day adds to the running balance: its balance from the start date
/// on, nothing before it.
pub open spec fn counted(d: &Day, rules: &Rules, ctx: TodayCtx) -> int {
    if d.date.num() >= rules.start_date.num() {
        day_balance(d, rules, ctx)
    } else {
        0
    }
}

pub open spec fn counted_sum(days: Seq<Day>, rules: &Rules, ctx: TodayCtx) -> int
    decreases days.len(),
{
    if days.len() == 0 {
        0
    } else {
        counted_sum(days.drop_last(), rules, ctx) + counted(&days.last(), rules, ctx)
    }
}

pub open spec fn abs_counted(days: Seq<Day>, rules: &Rules, ctx: TodayCtx) -> int
    decreases days.len(),
{
    if days.len() == 0 {
        0
    } else {
        abs_counted(days.drop_last(), rules, ctx) + abs(counted(&days.last(), rules, ctx))
    }
}

/// A work day with nothing booked.
pub open spec fn plain_empty(d: &Day) -> bool {
    d.kind@.0 == 0 && d.entries@.len() == 0
}

/// Day `i` is a Saturday that folds with the Sunday after it: both are work
/// days with nothing booked.
pub open spec fn collapses(days: Seq<Day>, i: int) -> bool {
    &&& 0 <= i
    &&& i + 1 < days.len()
    &&& weekday_of(days[i].date.num()) == 5
    &&& plain_empty(&days[i])
    &&& weekday_of(days[i + 1].date.num()) == 6
    &&& plain_empty(&days[i + 1])
}

/// A row as (day, what it stands for, the index of the day whose figures it
/// carries, or -1 for a footer).
pub open spec fn footer(d: &Day, week: int, running: int) -> (Date, RowKind, int) {
    (
        d.date,
        RowKind::WeekFooter {
            week: iso_week_of(d.date.num()) as u32,
            week_balance: Minutes(week as i32),
            running: Minutes(running as i32),
        },
        -1,
    )
}

/// The rows of day `i` on its own: one per entry, else one saying what the
/// day is.
pub open spec fn day_rows(d: &Day, i: int, ctx: TodayCtx) -> Seq<(Date, RowKind, int)> {
    if d.entries@.len() > 0 {
        Seq::new(
            d.entries@.len(),
            |k: int| (d.date, RowKind::Entry { entry_idx: k as usize, first: k == 0 }, i),
        )
    } else if d.kind@.0 != 0 {
        seq![(d.date, RowKind::Kind, i)]
    } else if !crate::balance::working_day(d.date.num()) {
        seq![(d.date, RowKind::Weekend, i)]
    } else if day_missing(d, ctx) {
        seq![(d.date, RowKind::Missing, i)]
    } else {
        seq![(d.date, RowKind::Empty, i)]
    }
}

/// The rows from day `i` on, with `running` the balance so far and `week`
/// that of the week so far. A folded weekend closes its week; any other day
/// closes it when it is a Sunday or the month's last day.
pub open spec fn month_rows(
    days: Seq<Day>,
    rules: &Rules,
    ctx: TodayCtx,
    i: int,
    running: int,
    week: int,
) -> Seq<(Date, RowKind, int)>
    decreases days.len() - i,
{
    if i < 0 || i >= days.len() {
        Seq::empty()
    } else if collapses(days, i) {
        let r1 = running + counted(&days[i], rules, ctx) + counted(&days[i + 1], rules, ctx);
        let w1 = week + counted(&days[i], rules, ctx) + counted(&days[i + 1], rules, ctx);
        seq![(days[i].date, RowKind::Weekend, i), footer(&days[i + 1], w1, r1)] + month_rows(
            days,
            rules,
            ctx,
            i + 2,
            r1,
            0,
        )
    } else {
        let r1 = running + counted(&days[i], rules, ctx);
        let w1 = week + counted(&days[i], rules, ctx);
        if weekday_of(days[i].date.num()) == 6 || days[i].date == days.last().date {
            day_rows(&days[i], i, ctx).push(footer(&days[i], w1, r1)) + month_rows(
                days,
                rules,
                ctx,
                i + 1,
                r1,
                0,
            )
        } else {
            day_rows(&days[i], i, ctx) + month_rows(days, rules, ctx, i + 1, r1, w1)
        }
    }
}

/// `rows` are the rows `want` describes, each with its day's figures.
pub open spec fn rows_match(
    rows: Seq<Row>,
    want: Seq<(Date, RowKind, int)>,
    days: Seq<Day>,
    rules: &Rules,
    cal: &HolidayCalendar,
    ctx: TodayCtx,
) -> bool {
    &&& rows.len() == want.len()
    &&& forall|p: int|
        0 <= p < rows.len() ==> (#[trigger] rows[p]).date == want[p].0 && rows[p].kind == want[p].1
    &&& forall|p: int| 0 <= p < rows.len() && want[p].2 < 0 ==> (#[trigger] rows[p]).stats is None
    &&& forall|p: int|
        0 <= p < rows.len() && 0 <= want[p].2 < days.len() ==> ((#[trigger] rows[p]).stats matches Some(
            st,
        ) && day_figures(&st, &days[want[p].2], rules, cal, ctx))
    &&& forall|p: int| 0 <= p < rows.len() ==> want[p].2 < days.len()
}

proof fn lemma_sum_split(days: Seq<Day>, rules: &Rules, ctx: TodayCtx, a: int, b: int)
    requires
        0 <= a <= b <= days.len(),
    ensures
        counted_sum(days.subrange(0, b), rules, ctx) == counted_sum(days.subrange(0, a), rules, ctx)
            + counted_sum(days.subrange(a, b), rules, ctx),
        abs_counted(days.subrange(0, b), rules, ctx) == abs_counted(days.subrange(0, a), rules, ctx)
            + abs_counted(days.subrange(a, b), rules, ctx),
        abs(counted_sum(days.subrange(a, b), rules, ctx)) <= abs_counted(days.subrange(a, b), rules, ctx),
        abs_counted(days.subrange(0, a), rules, ctx) >= 0,
    decreases b - a,
{
    if b > a {
        lemma_sum_split(days, rules, ctx, a, b - 1);
        assert(days.subrange(0, b).drop_last() =~= days.subrange(0, b - 1));
        assert(days.subrange(a, b).drop_last() =~= days.subrange(a, b - 1));
    } else {
        assert(days.subrange(a, b) =~= Seq::<Day>::empty());
        lemma_abs_counted_nonneg(days.subrange(0, a), rules, ctx);
    }
}

proof fn lemma_abs_counted_nonneg(days: Seq<Day>, rules: &Rules, ctx: TodayCtx)
    ensures
        abs_counted(days, rules, ctx) >= 0,
    decreases days.len(),
{
    if days.len() > 0 {
        lemma_abs_counted_nonneg(days.drop_last(), rules, ctx);
    }
}

/// Every running sum of the month fits: the balance carried in with the
/// day balances, taken without their signs.
pub open spec fn month_fits(data: &MonthData, rules: &Rules, cal: &HolidayCalendar, ctx: TodayCtx) -> bool {
    &&& days_fit(data.days@, rules, cal)
    &&& abs_counted(data.days@, rules, ctx) + abs(data.balance_before.0 as int) <= i32::MAX
}

proof fn lemma_match_push(
    rows: Seq<Row>,
    row: Row,
    done: Seq<(Date, RowKind, int)>,
    x: (Date, RowKind, int),
    days: Seq<Day>,
    rules: &Rules,
    cal: &HolidayCalendar,
    ctx: TodayCtx,
)
    requires
        rows_match(rows, done, days, rules, cal, ctx),
        row.date == x.0,
        row.kind == x.1,
        x.2 < days.len(),
        x.2 < 0 ==> row.stats is None,
        0 <= x.2 ==> (row.stats matches Some(st) && day_figures(&st, &days[x.2], rules, cal, ctx)),
    ensures
        rows_match(rows.push(row), done.push(x), days, rules, cal, ctx),
{
    let r2 = rows.push(row);
    let d2 = done.push(x);
    assert forall|p: int| 0 <= p < r2.len() implies (#[trigger] r2[p]).date == d2[p].0 && r2[p].kind
        == d2[p].1 by {
        if p < rows.len() {
            assert(r2[p] == rows[p]);
        }
    }
    assert forall|p: int| 0 <= p < r2.len() && d2[p].2 < 0 implies (#[trigger] r2[p]).stats is None by {
        if p < rows.len() {
            assert(r2[p] == rows[p]);
        }
    }
    assert forall|p: int| 0 <= p < r2.len() && 0 <= d2[p].2 < days.len() implies ((#[trigger] r2[p]).stats matches Some(
        st,
    ) && day_figures(&st, &days[d2[p].2], rules, cal, ctx)) by {
        if p < rows.len() {
            assert(r2[p] == rows[p]);
        }
    }
    assert forall|p: int| 0 <= p < r2.len() implies d2[p].2 < days.len() by {
        if p < rows.len() {
            assert(d2[p] == done[p]);
        }
    }
}

/// The table of the month: its rows with each day's figures.
#[verifier::rlimit(60)]
pub fn month_table(data: &MonthData, rules: &Rules, cal: &HolidayCalendar, ctx: TodayCtx) -> (r: Vec<
    Row,
>)
    requires
        month_fits(data, rules, cal, ctx),
    ensures
        rows_match(
            r@,
            month_rows(data.days@, rules, ctx, 0, data.balance_before.0 as int, 0),
            data.days@,
            rules,
            cal,
            ctx,
        ),
{
    let days = data.days.as_slice();
    let n = days.len();
    let ghost whole = month_rows(days@, rules, ctx, 0, data.balance_before.0 as int, 0);
    let ghost mut done: Seq<(Date, RowKind, int)> = Seq::empty();
    let ghost mut seg: int = 0;
    let mut rows: Vec<Row> = Vec::new();
    let mut running: i32 = data.balance_before.0;
    let mut week: i32 = 0;
    let mut i: usize = 0;
    proof {
        assert(done + whole =~= whole);
        lemma_sum_split(days@, rules, ctx, 0, 0);
        assert(days@.subrange(0, 0) =~= Seq::<Day>::empty());
    }
    while i < n
        invariant
            n == days@.len(),
            days@ == data.days@,
            i <= n,
            month_fits(data, rules, cal, ctx),
            0 <= seg <= i,
            running == data.balance_before.0 + counted_sum(days@.subrange(0, i as int), rules, ctx),
            week == counted_sum(days@.subrange(seg, i as int), rules, ctx),
            done + month_rows(days@, rules, ctx, i as int, running as int, week as int) == whole,
            rows_match(rows@, done, days@, rules, cal, ctx),
        decreases n - i,
    {
        let day = &days[i];
        let ghost r0 = running as int;
        let ghost w0 = week as int;
        let ghost ci = counted(&days@[i as int], rules, ctx);
        proof {
            assert(day_fits(&days@[i as int], rules));
            assert(days@.subrange(0, i + 1).drop_last() =~= days@.subrange(0, i as int));
            assert(days@.subrange(seg, i + 1).drop_last() =~= days@.subrange(seg, i as int));
            lemma_sum_split(days@, rules, ctx, seg, i + 1);
            lemma_sum_split(days@, rules, ctx, i + 1, n as int);
            lemma_sum_split(days@, rules, ctx, 0, i + 1);
            assert(days@.subrange(0, n as int) =~= days@);
        }
        let s = day_stats(day, rules, cal, &ctx);
        if rules.start_date.not_after(&day.date) {
            running = running + s.balance.0;
            week = week + s.balance.0;
        }
        let fold = day.date.weekday() == 5 && day.entries.len() == 0 && day.kind.is_work() && i + 1
            < n && days[i + 1].date.weekday() == 6 && days[i + 1].kind.is_work() && days[i
            + 1].entries.len() == 0;
        if fold {
            let sun = &days[i + 1];
            let ghost c2 = counted(&days@[i + 1], rules, ctx);
            proof {
                assert(collapses(days@, i as int));
                assert(day_fits(&days@[i + 1], rules));
                assert(days@.subrange(0, i + 2).drop_last() =~= days@.subrange(0, i + 1));
                assert(days@.subrange(seg, i + 2).drop_last() =~= days@.subrange(seg, i + 1));
                lemma_sum_split(days@, rules, ctx, seg, i + 2);
                lemma_sum_split(days@, rules, ctx, i + 2, n as int);
                lemma_sum_split(days@, rules, ctx, 0, i + 2);
            }
            let ss = day_stats(sun, rules, cal, &ctx);
            if rules.start_date.not_after(&sun.date) {
                running = running + ss.balance.0;
                week = week + ss.balance.0;
            }
            let ghost x1 = (days@[i as int].date, RowKind::Weekend, i as int);
            let row1 = Row { date: day.date, kind: RowKind::Weekend, stats: Some(s) };
            proof {
                lemma_match_push(rows@, row1, done, x1, days@, rules, cal, ctx);
            }
            rows.push(row1);
            let ghost x2 = footer(&days@[i + 1], week as int, running as int);
            let row2 = Row {
                date: sun.date,
                kind: RowKind::WeekFooter {
                    week: sun.date.iso_week(),
                    week_balance: Minutes(week),
                    running: Minutes(running),
                },
                stats: None,
            };
            proof {
                lemma_match_push(rows@, row2, done.push(x1), x2, days@, rules, cal, ctx);
                assert(month_rows(days@, rules, ctx, i as int, r0, w0) == seq![x1, x2] + month_rows(
                    days@,
                    rules,
                    ctx,
                    i + 2,
                    running as int,
                    0,
                ));
                assert(done.push(x1).push(x2) + month_rows(days@, rules, ctx, i + 2, running as int, 0)
                    =~= done + (seq![x1, x2] + month_rows(days@, rules, ctx, i + 2, running as int, 0)));
                done = done.push(x1).push(x2);
                seg = i + 2;
                assert(days@.subrange(seg, seg) =~= Seq::<Day>::empty());
            }
            rows.push(row2);
            week = 0;
            i = i + 2;
        } else {
            proof {
                assert(!collapses(days@, i as int));
            }
            let ghost chunk = day_rows(&days@[i as int], i as int, ctx);
            let ghost start_done = done;
            if day.entries.len() > 0 {
                let mut k: usize = 0;
                while k < day.entries.len()
                    invariant
                        k <= day.entries@.len(),
                        day.entries@.len() > 0,
                        days@ == data.days@,
                        n == days@.len(),
                        i < n,
                        *day == days@[i as int],
                        chunk == day_rows(&days@[i as int], i as int, ctx),
                        day_figures(&s, &days@[i as int], rules, cal, ctx),
                        done == start_done + chunk.take(k as int),
                        rows_match(rows@, done, days@, rules, cal, ctx),
                    decreases day.entries.len() - k,
                {
                    let ghost x = chunk[k as int];
                    let st = s.clone();
                    let row = Row {
                        date: day.date,
                        kind: RowKind::Entry { entry_idx: k, first: k == 0 },
                        stats: Some(st),
                    };
                    proof {
                        lemma_match_push(rows@, row, done, x, days@, rules, cal, ctx);
                        assert(chunk.take(k + 1) =~= chunk.take(k as int).push(x));
                        done = done.push(x);
                    }
                    rows.push(row);
                    k += 1;
                }
                proof {
                    assert(chunk.take(day.entries@.len() as int) =~= chunk);
                }
            } else {
                let kind = if !day.kind.is_work() {
                    RowKind::Kind
                } else if s.is_weekend {
                    RowKind::Weekend
                } else if s.missing {
                    RowKind::Missing
                } else {
                    RowKind::Empty
                };
                let ghost x = chunk[0];
                let row = Row { date: day.date, kind, stats: Some(s) };
                proof {
                    lemma_match_push(rows@, row, done, x, days@, rules, cal, ctx);
                    assert(start_done.push(x) =~= start_done + chunk);
                    done = done.push(x);
                }
                rows.push(row);
            }
            let last = days[n - 1].date;
            if day.date.weekday() == 6 || day.date.same(&last) {
                let ghost x = footer(&days@[i as int], week as int, running as int);
                let row = Row {
                    date: day.date,
                    kind: RowKind::WeekFooter {
                        week: day.date.iso_week(),
                        week_balance: Minutes(week),
                        running: Minutes(running),
                    },
                    stats: None,
                };
                proof {
                    lemma_match_push(rows@, row, done, x, days@, rules, cal, ctx);
                    assert(month_rows(days@, rules, ctx, i as int, r0, w0) == chunk.push(x) + month_rows(
                        days@,
                        rules,
                        ctx,
                        i + 1,
                        running as int,
                        0,
                    ));
                    assert(done.push(x) + month_rows(days@, rules, ctx, i + 1, running as int, 0) =~= start_done
                        + (chunk.push(x) + month_rows(days@, rules, ctx, i + 1, running as int, 0)));
                    done = done.push(x);
                    seg = i + 1;
                    assert(days@.subrange(seg, seg) =~= Seq::<Day>::empty());
                }
                rows.push(row);
                week = 0;
            } else {
                proof {
                    assert(month_rows(days@, rules, ctx, i as int, r0, w0) == chunk + month_rows(
                        days@,
                        rules,
                        ctx,
                        i + 1,
                        running as int,
                        week as int,
                    ));
                    assert(done + month_rows(days@, rules, ctx, i + 1, running as int, week as int) =~= start_done
                        + (chunk + month_rows(days@, rules, ctx, i + 1, running as int, week as int)));
                }
            }
            i = i + 1;
        }
    }
    proof {
        assert(done =~= whole);
    }
    rows
}

/// The nets of all the days.
pub open spec fn nets_all(days: Seq<Day>, rules: &Rules) -> int
    decreases days.len(),
{
    if days.len() == 0 {
        0
    } else {
        nets_all(days.drop_last(), rules) + day_net(&days.last(), rules)
    }
}

/// The targets of all the days.
pub open spec fn targets_all(days: Seq<Day>, rules: &Rules, ctx: TodayCtx) -> int
    decreases days.len(),
{
    if days.len() == 0 {
        0
    } else {
        targets_all(days.drop_last(), rules, ctx) + day_target(&days.last(), rules, ctx)
    }
}

/// How many of the days have kind number `tag`.
pub open spec fn tag_count(days: Seq<Day>, tag: int) -> int
    decreases days.len(),
{
    if days.len() == 0 {
        0
    } else {
        tag_count(days.drop_last(), tag) + if days.last().kind@.0 == tag {
            1int
        } else {
            0
        }
    }
}

/// How many of the days are missing.
pub open spec fn missing_all(days: Seq<Day>, ctx: TodayCtx) -> int
    decreases days.len(),
{
    if days.len() == 0 {
        0
    } else {
        missing_all(days.drop_last(), ctx) + if day_missing(&days.last(), ctx) {
            1int
        } else {
            0
        }
    }
}

/// The pairs of `c` whose count is not zero, in order.
pub open spec fn nonzero(c: Seq<(Seq<char>, int)>) -> Seq<(Seq<char>, int)>
    decreases c.len(),
{
    if c.len() == 0 {
        Seq::empty()
    } else if c.last().1 != 0 {
        nonzero(c.drop_last()).push(c.last())
    } else {
        nonzero(c.drop_last())
    }
}

/// The month's day counts by name, in the order of the names: every kind
/// other than work that occurs, and the missing days.
pub open spec fn kind_count_list(days: Seq<Day>, ctx: TodayCtx) -> Seq<(Seq<char>, int)> {
    nonzero(
        seq![
            (kind_name(5), tag_count(days, 5)),
            (kind_name(2), tag_count(days, 2)),
            (kind_name(3), tag_count(days, 3)),
            ("missing"@, missing_all(days, ctx)),
            (kind_name(4), tag_count(days, 4)),
            (kind_name(1), tag_count(days, 1)),
        ],
    )
}

pub open spec fn counts_view(v: Seq<(String, u32)>) -> Seq<(Seq<char>, int)> {
    Seq::new(v.len(), |i: int| (v[i].0@, v[i].1 as int))
}

proof fn lemma_nets_all_prefix(days: Seq<Day>, rules: &Rules, k: int)
    requires
        0 <= k <= days.len(),
    ensures
        0 <= nets_all(days.take(k), rules) <= nets_all(days, rules),
    decreases days.len() - k,
{
    if k == days.len() {
        assert(days.take(k) =~= days);
        lemma_nets_all_nonneg(days, rules);
    } else {
        lemma_nets_all_prefix(days.drop_last(), rules, k);
        assert(days.drop_last().take(k) =~= days.take(k));
    }
}

proof fn lemma_nets_all_nonneg(days: Seq<Day>, rules: &Rules)
    ensures
        nets_all(days, rules) >= 0,
    decreases days.len(),
{
    if days.len() > 0 {
        lemma_nets_all_nonneg(days.drop_last(), rules);
    }
}

/// Whether the month's totals fit: the nets, every running sum of targets,
/// the balance they leave, and the day counts.
pub open spec fn totals_fit(days: Seq<Day>, rules: &Rules, cal: &HolidayCalendar, ctx: TodayCtx) -> bool {
    &&& days_fit(days, rules, cal)
    &&& days.len() <= u32::MAX
    &&& nets_all(days, rules) <= i32::MAX
    &&& forall|k: int|
        0 <= k <= days.len() ==> i32::MIN <= #[trigger] targets_all(days.take(k), rules, ctx) <= i32::MAX
    &&& i32::MIN <= nets_all(days, rules) - targets_all(days, rules, ctx) <= i32::MAX
    &&& magnitude(amounts(worked(days, rules.tiers@))) <= i32::MAX
}

/// The month's net, target, days of each kind and missing days.
fn month_figures(days: &[Day], rules: &Rules, cal: &HolidayCalendar, ctx: TodayCtx) -> (r: (
    i32,
    i32,
    [u32; 6],
    u32,
))
    requires
        totals_fit(days@, rules, cal, ctx),
    ensures
        r.0 == nets_all(days@, rules),
        r.1 == targets_all(days@, rules, ctx),
        forall|t: int| 0 <= t < 6 ==> r.2@[t] == tag_count(days@, t),
        r.3 == missing_all(days@, ctx),
{
    let mut net: i32 = 0;
    let mut target: i32 = 0;
    let mut missing: u32 = 0;
    let mut kinds: [u32; 6] = [0, 0, 0, 0, 0, 0];
    let mut k: usize = 0;
    proof {
        assert(days@.take(0) =~= Seq::<Day>::empty());
    }
    while k < days.len()
        invariant
            k <= days@.len(),
            totals_fit(days@, rules, cal, ctx),
            net == nets_all(days@.take(k as int), rules),
            target == targets_all(days@.take(k as int), rules, ctx),
            missing == missing_all(days@.take(k as int), ctx),
            0 <= missing <= k,
            forall|t: int|
                0 <= t < 6 ==> kinds@[t] == tag_count(days@.take(k as int), t) && 0 <= kinds@[t] <= k,
        decreases days.len() - k,
    {
        let ghost p = days@.take(k as int);
        let ghost q = days@.take(k + 1);
        proof {
            assert(q.drop_last() =~= p);
            assert(q.last() == days@[k as int]);
            assert(day_fits(&days@[k as int], rules));
            lemma_nets_all_prefix(days@, rules, k + 1);
            assert(i32::MIN <= targets_all(q, rules, ctx) <= i32::MAX);
        }
        let day = &days[k];
        let s = day_stats(day, rules, cal, &ctx);
        net = net + s.net.0;
        target = target + s.target.0;
        if s.missing {
            missing = missing + 1;
        }
        let t = day.kind.tag() as usize;
        kinds.set(t, kinds[t] + 1);
        proof {
            assert forall|t: int| 0 <= t < 6 implies kinds@[t] == tag_count(q, t) && 0 <= kinds@[t] <= k
                + 1 by {
                assert(tag_count(q, t) == tag_count(p, t) + if days@[k as int].kind@.0 == t {
                    1int
                } else {
                    0
                });
            }
        }
        k += 1;
    }
    proof {
        assert(days@.take(days@.len() as int) =~= days@);
    }
    (net, target, kinds, missing)
}

fn push_count(out: &mut Vec<(String, u32)>, name: &str, n: u32)
    ensures
        counts_view(final(out)@) == (if n != 0 {
            counts_view(old(out)@).push((name@, n as int))
        } else {
            counts_view(old(out)@)
        }),
{
    if n != 0 {
        let ghost before = counts_view(out@);
        out.push((String::from_str(name), n));
        proof {
            assert(counts_view(out@) =~= before.push((name@, n as int)));
        }
    }
}

/// The month's rows and totals: the net and target of every day and the
/// balance they leave, the net time per project, and how many days had
/// each kind other than work or were missing.
pub fn build_month_view(data: &MonthData, rules: &Rules, cal: &HolidayCalendar, today: Date) -> (r:
    MonthView)
    requires
        month_fits(data, rules, cal, TodayCtx { today, clocked_in: data.session is Some }),
        totals_fit(data.days@, rules, cal, TodayCtx { today, clocked_in: data.session is Some }),
    ensures
        ({
            let ctx = TodayCtx { today, clocked_in: data.session is Some };
            let days = data.days@;
            &&& rows_match(
                r.rows@,
                month_rows(days, rules, ctx, 0, data.balance_before.0 as int, 0),
                days,
                rules,
                cal,
                ctx,
            )
            &&& r.net.0 == nets_all(days, rules)
            &&& r.target.0 == targets_all(days, rules, ctx)
            &&& r.balance.0 == r.net.0 - r.target.0
            &&& lists_totals(total_view(r.project_totals@), worked(days, rules.tiers@), data.projects@)
            &&& counts_view(r.kind_counts@) == kind_count_list(days, ctx)
        }),
{
    let ctx = TodayCtx { today, clocked_in: data.session.is_some() };
    let rows = month_table(data, rules, cal, ctx);
    let (net, target, kinds, missing) = month_figures(data.days.as_slice(), rules, cal, ctx);
    let (project_totals, _) = project_totals(
        data.days.as_slice(),
        rules.tiers.as_slice(),
        data.projects.as_slice(),
    );
    let ghost c = seq![
        (kind_name(5), tag_count(data.days@, 5)),
        (kind_name(2), tag_count(data.days@, 2)),
        (kind_name(3), tag_count(data.days@, 3)),
        ("missing"@, missing_all(data.days@, ctx)),
        (kind_name(4), tag_count(data.days@, 4)),
        (kind_name(1), tag_count(data.days@, 1)),
    ];
    let mut counts: Vec<(String, u32)> = Vec::new();
    proof {
        assert(counts_view(counts@) =~= nonzero(c.take(0)));
    }
    push_count(&mut counts, DayKind::Absence { label: String::new() }.as_str(), kinds[5]);
    proof {
        assert(c.take(1).drop_last() =~= c.take(0));
        assert(counts_view(counts@) == nonzero(c.take(1)));
    }
    push_count(&mut counts, DayKind::Flex.as_str(), kinds[2]);
    proof {
        assert(c.take(2).drop_last() =~= c.take(1));
        assert(counts_view(counts@) == nonzero(c.take(2)));
    }
    push_count(&mut counts, DayKind::Holiday.as_str(), kinds[3]);
    proof {
        assert(c.take(3).drop_last() =~= c.take(2));
        assert(counts_view(counts@) == nonzero(c.take(3)));
    }
    push_count(&mut counts, "missing", missing);
    proof {
        assert(c.take(4).drop_last() =~= c.take(3));
        assert(counts_view(counts@) == nonzero(c.take(4)));
    }
    push_count(&mut counts, DayKind::Sick.as_str(), kinds[4]);
    proof {
        assert(c.take(5).drop_last() =~= c.take(4));
        assert(counts_view(counts@) == nonzero(c.take(5)));
    }
    push_count(&mut counts, DayKind::Vacation.as_str(), kinds[1]);
    proof {
        assert(c.take(6).drop_last() =~= c.take(5));
        assert(counts_view(counts@) == nonzero(c.take(6)));
        assert(c.take(6) =~= c);
    }
    MonthView {
        rows,
        target: Minutes(target),
        net: Minutes(net),
        balance: Minutes(net - target),
        project_totals,
        kind_counts: counts,
    }
}

/// Row `r` belongs to day `d` and is no footer.
pub open spec fn owns(r: Row, d: Date) -> bool {
    r.date == d && !(r.kind is WeekFooter)
}

/// Row `r` is a weekend row on day `d` or on the day before it.
pub open spec fn weekend_covers(r: Row, d: Date) -> bool {
    r.kind is Weekend && (r.date == d || d.num() == r.date.num() + 1)
}

fn is_footer(k: RowKind) -> (r: bool)
    ensures
        r == (k is WeekFooter),
{
    match k {
        RowKind::WeekFooter { .. } => true,
        _ => false,
    }
}

/// Whether `d` is the day after `r`.
fn is_next_day(r: Date, d: Date) -> (b: bool)
    ensures
        b == (d.num() == r.num() + 1),
{
    r.valid();
    d.valid();
    match r.succ_opt() {
        Some(x) => {
            x.valid();
            proof {
                crate::date::lemma_order(x@, d@);
                x.lemma_view_eq(d);
            }
            x.same(&d)
        },
        None => {
            proof {
                crate::stats::lemma_date_in_range(d);
            }
            false
        },
    }
}

/// The row a day is shown on: the first that belongs to it, else the
/// weekend row it was folded into.
pub fn row_index_of(rows: &[Row], date: Date) -> (r: Option<usize>)
    ensures
        (exists|j: int| 0 <= j < rows@.len() && owns(#[trigger] rows@[j], date)) ==> (r matches Some(i)
            && i < rows@.len() && owns(rows@[i as int], date) && forall|j: int|
            0 <= j < i ==> !owns(#[trigger] rows@[j], date)),
        !(exists|j: int| 0 <= j < rows@.len() && owns(#[trigger] rows@[j], date)) ==> match r {
            Some(i) => i < rows@.len() && weekend_covers(rows@[i as int], date) && forall|j: int|
                0 <= j < i ==> !weekend_covers(#[trigger] rows@[j], date),
            None => forall|j: int| 0 <= j < rows@.len() ==> !weekend_covers(#[trigger] rows@[j], date),
        },
{
    let mut i: usize = 0;
    while i < rows.len()
        invariant
            i <= rows@.len(),
            forall|j: int| 0 <= j < i ==> !owns(#[trigger] rows@[j], date),
        decreases rows.len() - i,
    {
        if rows[i].date.same(&date) && !is_footer(rows[i].kind) {
            return Some(i);
        }
        i += 1;
    }
    let mut k: usize = 0;
    while k < rows.len()
        invariant
            k <= rows@.len(),
            forall|j: int| 0 <= j < rows@.len() ==> !owns(#[trigger] rows@[j], date),
            forall|j: int| 0 <= j < k ==> !weekend_covers(#[trigger] rows@[j], date),
        decreases rows.len() - k,
    {
        let weekend = match rows[k].kind {
            RowKind::Weekend => true,
            _ => false,
        };
        if weekend && (rows[k].date.same(&date) || is_next_day(rows[k].date, date)) {
            return Some(k);
        }
        k += 1;
    }
    None
}

/// Whether row `r` lights up for the selected day: a footer never does; a
/// weekend row does for its own day, and for the next when no row of the
/// table belongs to that one (the Sunday was folded into it); any other row
/// for its own day.
pub open spec fn selected_row(rows: Seq<Row>, r: Row, selected: Date) -> bool {
    match r.kind {
        RowKind::WeekFooter { .. } => false,
        RowKind::Weekend => r.date == selected || (selected.num() == r.date.num() + 1 && !exists|j: int|
            0 <= j < rows.len() && owns(#[trigger] rows[j], selected)),
        _ => r.date == selected,
    }
}

/// Whether row `r` of `rows` is lit for the selected day.
pub fn row_is_selected(rows: &[Row], r: &Row, selected: Date) -> (b: bool)
    ensures
        b == selected_row(rows@, *r, selected),
{
    match r.kind {
        RowKind::WeekFooter { .. } => false,
        RowKind::Weekend => {
            if r.date.same(&selected) {
                return true;
            }
            if !is_next_day(r.date, selected) {
                return false;
            }
            let mut i: usize = 0;
            while i < rows.len()
                invariant
                    i <= rows@.len(),
                    forall|j: int| 0 <= j < i ==> !owns(#[trigger] rows@[j], selected),
                    r.kind is Weekend,
                    r.date != selected,
                    selected.num() == r.date.num() + 1,
                decreases rows.len() - i,
            {
                if rows[i].date.same(&selected) && !is_footer(rows[i].kind) {
                    proof {
                        assert(owns(rows@[i as int], selected));
                    }
                    return false;
                }
                i += 1;
            }
            true
        },
        _ => r.date.same(&selected),
    }
}

/// Whether no day loses more to its pauses than it worked, where the
/// day's net, held at zero, would part from what its entries net.
pub open spec fn losses_covered(days: Seq<Day>, t: Seq<BreakTier>) -> bool {
    forall|k: int|
        0 <= k < days.len() ==> day_loss((#[trigger] days[k]).entries@, t) <= gross_of(days[k].entries@)
}

proof fn lemma_total_concat(a: Seq<int>, b: Seq<int>)
    ensures
        total(a + b) == total(a) + total(b),
    decreases b.len(),
{
    if b.len() == 0 {
        assert(a + b =~= a);
    } else {
        assert((a + b).drop_last() =~= a + b.drop_last());
        assert((a + b).last() == b.last());
        lemma_total_concat(a, b.drop_last());
    }
}

/// The minutes booked to projects over some days add up to the days' net.
proof fn lemma_worked_is_net(days: Seq<Day>, rules: &Rules)
    requires
        days_sane(days),
        tiers_sane(rules.tiers@),
        losses_covered(days, rules.tiers@),
    ensures
        total(amounts(worked(days, rules.tiers@))) == nets_all(days, rules),
    decreases days.len(),
{
    if days.len() > 0 {
        let u = days.drop_last();
        assert(days_sane(u) && losses_covered(u, rules.tiers@)) by {
            assert forall|k: int| 0 <= k < u.len() implies entries_sane((#[trigger] u[k]).entries@)
                && u[k].entries@.len() <= usize::MAX && day_loss(u[k].entries@, rules.tiers@) <= gross_of(
                u[k].entries@,
            ) by {
                assert(u[k] == days[k]);
            }
        }
        lemma_worked_is_net(u, rules);
        let d = days.last();
        assert(d == days[days.len() - 1]);
        let e = d.entries@;
        let t = rules.tiers@;
        crate::balance::lemma_project_time_is_net_time(e, t);
        let w = worked(u, t);
        let p = crate::tally::day_pairs(d, t);
        crate::sharing::lemma_nets_bounds(e, t);
        assert(amounts(w + p) =~= amounts(w) + amounts(p));
        assert(amounts(p) =~= nets_of(e, t));
        lemma_total_concat(amounts(w), amounts(p));
    }
}

/// The month's project time is its net time: the project totals of a month
/// add up to the net of its days, wherever no day loses more to its pauses
/// than it worked.
pub proof fn month_project_time_is_net_time(
    days: Seq<Day>,
    rules: &Rules,
    totals: Seq<(Seq<char>, int, int)>,
    projects: Seq<Project>,
)
    requires
        days_sane(days),
        tiers_sane(rules.tiers@),
        losses_covered(days, rules.tiers@),
        lists_totals(totals, worked(days, rules.tiers@), projects),
    ensures
        listed_minutes(totals) == nets_all(days, rules),
{
    lists_totals_add_up(totals, worked(days, rules.tiers@), projects);
    lemma_worked_is_net(days, rules);
}

} // verus!
