//! The statistics screen's figures: the bars of the overtime chart, the
//! best and worst of them, and the totals of a range.
use crate::balance::{
    Rules, TodayCtx, day_balance, day_fits, day_loss, day_stats, gross_of, is_working_day,
    target_applies, working_day,
};
use crate::breaks::max;
use crate::date::{
    Date, MAX_YEAR, MIN_YEAR, day_number, days_in_month, first_day_number, in_range, iso_week_of,
    last_day_number, lemma_order, valid_ymd, weekday_of,
};
use crate::holidays::{HolidayCalendar, known_on};
use crate::minutes::{Minutes, abs};
use crate::periods::{Granularity, RangeKind, granularity_for, granularity_of, month_range};
use crate::tally::{amounts, lists_totals, magnitude, project_totals, total_view, worked};
use crate::breaks::total;
use crate::text::{decimal, pad2, push_char, push_decimal, push_pad2, push_str};
use crate::types::{Day, Project};
use vstd::prelude::*;

verus! {

/// One bar of the overtime chart: the balance of the days it spans, and the
/// balance as it stands when the period ends.
#[derive(Debug, Clone, PartialEq, Eq)]
pub struct Bucket {
    pub label: String,
    pub balance: Minutes,
    pub from: Date,
    pub to: Date,
    pub running: Minutes,
}

/// A bucket as (label, balance, from, to, running).
pub open spec fn bucket_view(b: Seq<Bucket>) -> Seq<(Seq<char>, int, Date, Date, int)> {
    Seq::new(
        b.len(),
        |i: int| (b[i].label@, b[i].balance.0 as int, b[i].from, b[i].to, b[i].running.0 as int),
    )
}

/// A valid date lies in the supported range.
pub proof fn lemma_date_in_range(d: Date)
    requires
        valid_ymd(d@.0, d@.1, d@.2),
    ensures
        in_range(d.num()),
{
    lemma_order(d@, (MIN_YEAR as int, 1, 1));
    lemma_order((MAX_YEAR as int, 12, 31), d@);
}

/// A date no later than one before the last year leaves a week to spare.
proof fn lemma_week_room(d: Date, e: Date)
    requires
        valid_ymd(d@.0, d@.1, d@.2),
        valid_ymd(e@.0, e@.1, e@.2),
        d.num() <= e.num(),
        e@.0 < MAX_YEAR,
    ensures
        d@.0 < MAX_YEAR,
        in_range(d.num() + 6),
        first_day_number() <= d.num(),
{
    lemma_order(e@, d@);
    lemma_order(d@, (MAX_YEAR as int, 1, 1));
    lemma_order((MIN_YEAR as int, 1, 1), d@);
}

/// The last day of the bucket that opens on `start`, before it is cut at
/// the end of the range: the day itself, the Sunday of its ISO week, or the
/// last day of its month.
pub open spec fn bucket_end_num(start: Date, g: Granularity) -> int {
    match g {
        Granularity::Day => start.num(),
        Granularity::Week => start.num() + 6 - weekday_of(start.num()),
        Granularity::Month => day_number(start@.0, start@.1, days_in_month(start@.0, start@.1)),
    }
}

fn bucket_end(start: Date, g: Granularity) -> (r: Date)
    requires
        start@.0 < MAX_YEAR,
        first_day_number() <= start.num(),
        in_range(start.num() + 6),
    ensures
        r.num() == bucket_end_num(start, g),
{
    start.valid();
    match g {
        Granularity::Day => start,
        Granularity::Week => {
            let w = start.weekday();
            assert(in_range(start.num() + (6 - w)));
            start.checked_add_days((6 - w) as u64).unwrap()
        },
        Granularity::Month => month_range(start.year(), start.month()).1,
    }
}

/// The short English name of weekday `w` (0 is Monday).
pub open spec fn weekday_abbr(w: int) -> Seq<char> {
    if w == 0 {
        "Mon"@
    } else if w == 1 {
        "Tue"@
    } else if w == 2 {
        "Wed"@
    } else if w == 3 {
        "Thu"@
    } else if w == 4 {
        "Fri"@
    } else if w == 5 {
        "Sat"@
    } else {
        "Sun"@
    }
}

/// The three-letter name of month `m`.
pub open spec fn month_abbr(m: int) -> Seq<char> {
    if m <= 1 {
        "Jan"@
    } else if m == 2 {
        "Feb"@
    } else if m == 3 {
        "Mar"@
    } else if m == 4 {
        "Apr"@
    } else if m == 5 {
        "May"@
    } else if m == 6 {
        "Jun"@
    } else if m == 7 {
        "Jul"@
    } else if m == 8 {
        "Aug"@
    } else if m == 9 {
        "Sep"@
    } else if m == 10 {
        "Oct"@
    } else if m == 11 {
        "Nov"@
    } else {
        "Dec"@
    }
}

/// A bar's label: weekday and day of the month (`Mon 03`), the ISO week
/// (`KW 14`), or the month (`Apr`).
pub open spec fn bucket_label_text(start: Date, g: Granularity) -> Seq<char> {
    match g {
        Granularity::Day => weekday_abbr(weekday_of(start.num())) + " "@ + pad2(start@.2 as nat),
        Granularity::Week => "KW "@ + decimal(iso_week_of(start.num()) as nat),
        Granularity::Month => month_abbr(start@.1),
    }
}

pub(crate) fn weekday_short(w: u32) -> (r: &'static str)
    ensures
        r@ == weekday_abbr(w as int),
{
    if w == 0 {
        "Mon"
    } else if w == 1 {
        "Tue"
    } else if w == 2 {
        "Wed"
    } else if w == 3 {
        "Thu"
    } else if w == 4 {
        "Fri"
    } else if w == 5 {
        "Sat"
    } else {
        "Sun"
    }
}

pub(crate) fn month_short(m: u32) -> (r: &'static str)
    ensures
        r@ == month_abbr(m as int),
{
    if m <= 1 {
        "Jan"
    } else if m == 2 {
        "Feb"
    } else if m == 3 {
        "Mar"
    } else if m == 4 {
        "Apr"
    } else if m == 5 {
        "May"
    } else if m == 6 {
        "Jun"
    } else if m == 7 {
        "Jul"
    } else if m == 8 {
        "Aug"
    } else if m == 9 {
        "Sep"
    } else if m == 10 {
        "Oct"
    } else if m == 11 {
        "Nov"
    } else {
        "Dec"
    }
}

/// The label of the bucket opening on `start`.
pub fn bucket_label(start: Date, g: Granularity) -> (r: String)
    ensures
        r@ == bucket_label_text(start, g),
{
    let mut s = String::new();
    match g {
        Granularity::Day => {
            push_str(&mut s, weekday_short(start.weekday()));
            push_char(&mut s, ' ');
            push_pad2(&mut s, start.day() as u64);
        },
        Granularity::Week => {
            push_str(&mut s, "KW ");
            push_decimal(&mut s, start.iso_week() as u64);
        },
        Granularity::Month => {
            push_str(&mut s, month_short(start.month()));
        },
    }
    proof {
        reveal_strlit("KW ");
        reveal_strlit(" ");
        assert(s@ =~= bucket_label_text(start, g));
    }
    s
}

/// Whether day `d` counts towards a balance over day numbers `lo..=hi`:
/// it lies there, and not before the start date `start`.
pub open spec fn in_span(d: &Day, start: int, lo: int, hi: int) -> bool {
    start <= d.date.num() && lo <= d.date.num() <= hi
}

/// The balance of the days of `days` from day number `lo` to `hi`, leaving
/// out those before the start date.
pub open spec fn span_balance(days: Seq<Day>, rules: &Rules, ctx: TodayCtx, lo: int, hi: int) -> int
    decreases days.len(),
{
    if days.len() == 0 {
        0
    } else {
        span_balance(days.drop_last(), rules, ctx, lo, hi) + if in_span(
            &days.last(),
            rules.start_date.num(),
            lo,
            hi,
        ) {
            day_balance(&days.last(), rules, ctx)
        } else {
            0
        }
    }
}

/// The same days' balances taken without their sign and summed.
pub open spec fn abs_span(days: Seq<Day>, rules: &Rules, ctx: TodayCtx, lo: int, hi: int) -> int
    decreases days.len(),
{
    if days.len() == 0 {
        0
    } else {
        abs_span(days.drop_last(), rules, ctx, lo, hi) + if in_span(
            &days.last(),
            rules.start_date.num(),
            lo,
            hi,
        ) {
            abs(day_balance(&days.last(), rules, ctx))
        } else {
            0
        }
    }
}

/// Two adjoining stretches of days together make up the whole.
pub proof fn lemma_span_split(days: Seq<Day>, rules: &Rules, ctx: TodayCtx, lo: int, mid: int, hi: int)
    requires
        lo <= mid + 1 <= hi + 1,
    ensures
        span_balance(days, rules, ctx, lo, mid) + span_balance(days, rules, ctx, mid + 1, hi)
            == span_balance(days, rules, ctx, lo, hi),
    decreases days.len(),
{
    if days.len() > 0 {
        lemma_span_split(days.drop_last(), rules, ctx, lo, mid, hi);
    }
}

/// No day lies in an empty stretch.
pub proof fn lemma_span_empty(days: Seq<Day>, rules: &Rules, ctx: TodayCtx, lo: int, hi: int)
    requires
        hi < lo,
    ensures
        span_balance(days, rules, ctx, lo, hi) == 0,
    decreases days.len(),
{
    if days.len() > 0 {
        lemma_span_empty(days.drop_last(), rules, ctx, lo, hi);
    }
}

/// A balance over a stretch of days is no larger, either way, than the sum
/// without signs over a stretch holding it.
pub proof fn lemma_span_bound(
    days: Seq<Day>,
    rules: &Rules,
    ctx: TodayCtx,
    lo: int,
    hi: int,
    outer_lo: int,
    outer_hi: int,
)
    requires
        outer_lo <= lo,
        hi <= outer_hi,
    ensures
        abs(span_balance(days, rules, ctx, lo, hi)) <= abs_span(days, rules, ctx, outer_lo, outer_hi),
    decreases days.len(),
{
    if days.len() > 0 {
        lemma_span_bound(days.drop_last(), rules, ctx, lo, hi, outer_lo, outer_hi);
    }
}

/// Fewer days sum to no more.
pub proof fn lemma_abs_prefix(days: Seq<Day>, rules: &Rules, ctx: TodayCtx, lo: int, hi: int, k: int)
    requires
        0 <= k <= days.len(),
    ensures
        0 <= abs_span(days.take(k), rules, ctx, lo, hi) <= abs_span(days, rules, ctx, lo, hi),
    decreases days.len() - k,
{
    if k == days.len() {
        assert(days.take(k) =~= days);
        lemma_abs_nonneg(days, rules, ctx, lo, hi);
    } else {
        lemma_abs_prefix(days.drop_last(), rules, ctx, lo, hi, k);
        assert(days.drop_last().take(k) =~= days.take(k));
    }
}

proof fn lemma_abs_nonneg(days: Seq<Day>, rules: &Rules, ctx: TodayCtx, lo: int, hi: int)
    ensures
        abs_span(days, rules, ctx, lo, hi) >= 0,
    decreases days.len(),
{
    if days.len() > 0 {
        lemma_abs_nonneg(days.drop_last(), rules, ctx, lo, hi);
    }
}

/// Stretches that run back to back never meet again.
proof fn lemma_chain(starts: Seq<Date>, ends: Seq<Date>)
    requires
        starts.len() == ends.len(),
        forall|i: int| 0 <= i < starts.len() ==> (#[trigger] starts[i]).num() <= ends[i].num(),
        forall|i: int| 0 <= i < starts.len() - 1 ==> (#[trigger] starts[i + 1]).num() == ends[i].num() + 1,
    ensures
        forall|i: int, j: int| 0 <= i < j < starts.len() ==> (#[trigger] ends[i]).num() < (#[trigger] starts[j]).num(),
{
    assert forall|i: int, j: int| 0 <= i < j < starts.len() implies (#[trigger] ends[i]).num() < (
    #[trigger] starts[j]).num() by {
        lemma_chain_from(starts, ends, i, j);
    }
}

proof fn lemma_chain_from(starts: Seq<Date>, ends: Seq<Date>, i: int, j: int)
    requires
        starts.len() == ends.len(),
        forall|i: int| 0 <= i < starts.len() ==> (#[trigger] starts[i]).num() <= ends[i].num(),
        forall|i: int| 0 <= i < starts.len() - 1 ==> (#[trigger] starts[i + 1]).num() == ends[i].num() + 1,
        0 <= i < j < starts.len(),
    ensures
        ends[i].num() < starts[j].num(),
    decreases j - i,
{
    if j > i + 1 {
        lemma_chain_from(starts, ends, i, j - 1);
        let k = j - 1;
        assert(starts[k + 1].num() == ends[k].num() + 1);
        assert(starts[k].num() <= ends[k].num());
    } else {
        assert(starts[i + 1].num() == ends[i].num() + 1);
    }
}

pub open spec fn min(a: int, b: int) -> int {
    if a < b {
        a
    } else {
        b
    }
}

/// `b` are the buckets of `from..=to` at granularity `g`: they run back to
/// back from `from` to `to`, each to the end of its period or of the range;
/// each holds the balance of its own days, and the balance carried in plus
/// that of every day from `from` to its end.
pub open spec fn bucketed(
    b: Seq<(Seq<char>, int, Date, Date, int)>,
    days: Seq<Day>,
    rules: &Rules,
    ctx: TodayCtx,
    from: Date,
    to: Date,
    g: Granularity,
    carried: int,
) -> bool {
    &&& (b.len() > 0 <==> from.num() <= to.num())
    &&& b.len() > 0 ==> b[0].2 == from && b[b.len() - 1].3.num() == to.num()
    &&& forall|i: int|
        0 <= i < b.len() ==> (#[trigger] b[i]).3.num() == min(bucket_end_num(b[i].2, g), to.num())
            && b[i].2.num() <= b[i].3.num()
    &&& forall|i: int| 0 <= i < b.len() - 1 ==> (#[trigger] b[i + 1]).2.num() == b[i].3.num() + 1
    &&& forall|i: int| 0 <= i < b.len() ==> (#[trigger] b[i]).0 == bucket_label_text(b[i].2, g)
    &&& forall|i: int|
        0 <= i < b.len() ==> (#[trigger] b[i]).1 == span_balance(days, rules, ctx, b[i].2.num(), b[i].3.num())
    &&& forall|i: int|
        0 <= i < b.len() ==> (#[trigger] b[i]).4 == carried + span_balance(
            days,
            rules,
            ctx,
            from.num(),
            b[i].3.num(),
        )
}

/// Whether every day can be measured: its figures fit and its holidays can be
/// told.
pub open spec fn days_fit(days: Seq<Day>, rules: &Rules, cal: &HolidayCalendar) -> bool {
    forall|k: int|
        0 <= k < days.len() ==> day_fits(&#[trigger] days[k], rules) && known_on(cal.extra(), days[k].date)
}

/// Split `from..=to` into buckets of `g` and sum the balance of the days
/// that fall into each, from the start date on. Buckets without days stay
/// in, at zero, so the chart keeps the shape of the range; each also carries
/// the running balance at its end, starting from `carried_in`.
pub fn build_buckets(
    days: &[Day],
    rules: &Rules,
    cal: &HolidayCalendar,
    today: Date,
    clocked_in: bool,
    from: Date,
    to: Date,
    g: Granularity,
    carried_in: Minutes,
) -> (r: Vec<Bucket>)
    requires
        days_fit(days@, rules, cal),
        to@.0 < MAX_YEAR,
        abs_span(
            days@,
            rules,
            TodayCtx { today, clocked_in },
            from.num(),
            to.num(),
        ) + abs(carried_in.0 as int) <= i32::MAX,
    ensures
        bucketed(
            bucket_view(r@),
            days@,
            rules,
            TodayCtx { today, clocked_in },
            from,
            to,
            g,
            carried_in.0 as int,
        ),
{
    let ctx = TodayCtx { today, clocked_in };
    to.valid();
    from.valid();
    let mut starts: Vec<Date> = Vec::new();
    let mut ends: Vec<Date> = Vec::new();
    let mut start = from;
    let mut more = true;
    while more && start.not_after(&to)
        invariant
            starts@.len() == ends@.len(),
            to@.0 < MAX_YEAR,
            more ==> (if starts@.len() == 0 {
                start == from
            } else {
                start.num() == ends@.last().num() + 1
            }),
            !more ==> starts@.len() > 0 && ends@.last().num() == to.num(),
            starts@.len() > 0 ==> starts@[0] == from,
            forall|i: int|
                0 <= i < starts@.len() ==> (#[trigger] ends@[i]).num() == min(
                    bucket_end_num(starts@[i], g),
                    to.num(),
                ) && starts@[i].num() <= ends@[i].num() && from.num() <= starts@[i].num()
                    && ends@[i].num() <= to.num(),
            forall|i: int|
                0 <= i < starts@.len() - 1 ==> (#[trigger] starts@[i + 1]).num() == ends@[i].num() + 1,
        decreases
                (if more {
                    to.num() - start.num() + 2
                } else {
                    0
                }),
    {
        start.valid();
        to.valid();
        proof {
            lemma_week_room(start, to);
        }
        let e = bucket_end(start, g);
        proof {
            if g == Granularity::Week {
                assert(0 <= weekday_of(start.num()) < 7);
            }
        }
        let end = e.min(to);
        starts.push(start);
        ends.push(end);
        end.valid();
        proof {
            lemma_date_in_range(end);
            lemma_date_in_range(to);
        }
        match end.succ_opt() {
            Some(n) => {
                start = n;
            },
            None => {
                more = false;
            },
        }
    }
    let n = starts.len();
    proof {
        lemma_chain(starts@, ends@);
        assert forall|i: int| 0 <= i < n implies from.num() <= (#[trigger] starts@[i]).num()
            && starts@[i].num() <= ends@[i].num() && ends@[i].num() <= to.num() by {
            assert(ends@[i].num() == min(bucket_end_num(starts@[i], g), to.num()));
        }
    }
    let mut bal: Vec<i32> = Vec::new();
    let mut z: usize = 0;
    while z < n
        invariant
            z <= n,
            bal@.len() == z,
            forall|i: int| 0 <= i < z ==> bal@[i] == 0,
        decreases n - z,
    {
        bal.push(0);
        z += 1;
    }
    let mut k: usize = 0;
    proof {
        assert(days@.take(0) =~= Seq::<Day>::empty());
    }
    while k < days.len()
        invariant
            k <= days@.len(),
            n == starts@.len(),
            n == ends@.len(),
            bal@.len() == n,
            days_fit(days@, rules, cal),
            ctx == (TodayCtx { today, clocked_in }),
            abs_span(days@, rules, ctx, from.num(), to.num()) + abs(carried_in.0 as int) <= i32::MAX,
            forall|i: int|
                0 <= i < n ==> from.num() <= (#[trigger] starts@[i]).num() && starts@[i].num()
                    <= ends@[i].num() && ends@[i].num() <= to.num(),
            forall|i: int, j: int| 0 <= i < j < n ==> (#[trigger] ends@[i]).num() < (#[trigger] starts@[j]).num(),
            forall|i: int|
                0 <= i < n ==> #[trigger] bal@[i] == span_balance(
                    days@.take(k as int),
                    rules,
                    ctx,
                    starts@[i].num(),
                    ends@[i].num(),
                ),
        decreases days.len() - k,
    {
        proof {
            assert(days@.take(k + 1).drop_last() =~= days@.take(k as int));
            assert(days@.take(k + 1).last() == days@[k as int]);
        }
        let d = days[k].date;
        if rules.start_date.not_after(&d) && from.not_after(&d) && d.not_after(&to) {
            let mut j: usize = 0;
            while j < n && !(starts[j].not_after(&d) && d.not_after(&ends[j]))
                invariant
                    j <= n,
                    n == starts@.len(),
                    n == ends@.len(),
                    forall|i: int|
                        0 <= i < j ==> !(#[trigger] starts@[i].num() <= d.num() && d.num()
                            <= ends@[i].num()),
                decreases n - j,
            {
                j += 1;
            }
            if j < n {
                let s = day_stats(&days[k], rules, cal, &ctx);
                proof {
                    assert(day_fits(&days@[k as int], rules));
                    lemma_span_bound(
                        days@.take(k + 1),
                        rules,
                        ctx,
                        starts@[j as int].num(),
                        ends@[j as int].num(),
                        from.num(),
                        to.num(),
                    );
                    lemma_abs_prefix(days@, rules, ctx, from.num(), to.num(), k + 1);
                }
                let v = bal[j] + s.balance.0;
                bal.set(j, v);
            }
        }
        k += 1;
        proof {
            assert forall|i: int| 0 <= i < n implies #[trigger] bal@[i] == span_balance(
                days@.take(k as int),
                rules,
                ctx,
                starts@[i].num(),
                ends@[i].num(),
            ) by {
                if in_span(&days@[k - 1], rules.start_date.num(), starts@[i].num(), ends@[i].num()) {
                    assert(from.num() <= d.num() <= to.num());
                    assert(rules.start_date.num() <= d.num());
                }
            }
        }
    }
    proof {
        assert(days@.take(days@.len() as int) =~= days@);
    }
    let mut out: Vec<Bucket> = Vec::new();
    let mut running: i32 = carried_in.0;
    proof {
        lemma_span_empty(days@, rules, ctx, from.num(), from.num() - 1);
    }
    let ghost mut cur_end: int = from.num() - 1;
    let mut i: usize = 0;
    while i < n
        invariant
            i <= n,
            n == starts@.len(),
            n == ends@.len(),
            bal@.len() == n,
            out@.len() == i,
            ctx == (TodayCtx { today, clocked_in }),
            abs_span(days@, rules, ctx, from.num(), to.num()) + abs(carried_in.0 as int) <= i32::MAX,
            n > 0 ==> starts@[0] == from,
            forall|m: int| 0 <= m < n - 1 ==> (#[trigger] starts@[m + 1]).num() == ends@[m].num() + 1,
            forall|m: int|
                0 <= m < n ==> from.num() <= (#[trigger] starts@[m]).num() && starts@[m].num()
                    <= ends@[m].num() && ends@[m].num() <= to.num(),
            cur_end == (if i == 0 {
                from.num() - 1
            } else {
                ends@[i - 1].num()
            }),
            running == carried_in.0 + span_balance(days@, rules, ctx, from.num(), cur_end),
            forall|m: int|
                0 <= m < n ==> #[trigger] bal@[m] == span_balance(
                    days@,
                    rules,
                    ctx,
                    starts@[m].num(),
                    ends@[m].num(),
                ),
            forall|m: int|
                0 <= m < i ==> (#[trigger] bucket_view(out@)[m]) == (
                    bucket_label_text(starts@[m], g),
                    bal@[m] as int,
                    starts@[m],
                    ends@[m],
                    carried_in.0 + span_balance(days@, rules, ctx, from.num(), ends@[m].num()),
                ),
        decreases n - i,
    {
        proof {
            assert(from.num() <= starts@[i as int].num() <= ends@[i as int].num() <= to.num());
            if i > 0 {
                let m = i - 1;
                assert(starts@[m + 1].num() == ends@[m].num() + 1);
            }
            lemma_span_split(days@, rules, ctx, from.num(), cur_end, ends@[i as int].num());
            lemma_span_bound(days@, rules, ctx, from.num(), ends@[i as int].num(), from.num(), to.num());
        }
        running = running + bal[i];
        let ghost before = bucket_view(out@);
        out.push(
            Bucket {
                label: bucket_label(starts[i], g),
                balance: Minutes(bal[i]),
                from: starts[i],
                to: ends[i],
                running: Minutes(running),
            },
        );
        proof {
            assert(bucket_view(out@) =~= before.push(bucket_view(out@)[i as int]));
            cur_end = ends@[i as int].num();
        }
        i += 1;
    }
    proof {
        let b = bucket_view(out@);
        assert forall|m: int| 0 <= m < b.len() implies (#[trigger] b[m]).3.num() == min(
            bucket_end_num(b[m].2, g),
            to.num(),
        ) && b[m].2.num() <= b[m].3.num() by {
            assert(b[m].2 == starts@[m]);
            assert(b[m].3 == ends@[m]);
        }
        assert forall|m: int| 0 <= m < b.len() - 1 implies (#[trigger] b[m + 1]).2.num() == b[m].3.num()
            + 1 by {
            assert(b[m + 1].2 == starts@[m + 1]);
            assert(b[m].3 == ends@[m]);
        }
        if n > 0 {
            assert(b[n - 1].3 == ends@[n - 1]);
        }
    }
    out
}

/// Whether no bucket has a balance.
pub open spec fn all_flat(b: Seq<Bucket>) -> bool {
    forall|i: int| 0 <= i < b.len() ==> (#[trigger] b[i]).balance.0 == 0
}

/// Bucket `i` has the largest balance, and none before it has as much.
pub open spec fn is_best(b: Seq<Bucket>, i: int) -> bool {
    &&& 0 <= i < b.len()
    &&& forall|j: int| 0 <= j < b.len() ==> (#[trigger] b[j]).balance.0 <= b[i].balance.0
    &&& forall|j: int| 0 <= j < i ==> (#[trigger] b[j]).balance.0 < b[i].balance.0
}

/// Bucket `i` has the smallest balance, and none before it has as little.
pub open spec fn is_worst(b: Seq<Bucket>, i: int) -> bool {
    &&& 0 <= i < b.len()
    &&& forall|j: int| 0 <= j < b.len() ==> (#[trigger] b[j]).balance.0 >= b[i].balance.0
    &&& forall|j: int| 0 <= j < i ==> (#[trigger] b[j]).balance.0 > b[i].balance.0
}

/// The indices of the largest and the smallest balance, ties going to the
/// earlier bucket; `(None, None)` when every bucket is flat, as there is no
/// best week in a month nothing happened in.
pub fn best_worst(buckets: &[Bucket]) -> (r: (Option<usize>, Option<usize>))
    ensures
        all_flat(buckets@) ==> r.0 is None && r.1 is None,
        !all_flat(buckets@) ==> (r.0 matches Some(i) && is_best(buckets@, i as int)),
        !all_flat(buckets@) ==> (r.1 matches Some(i) && is_worst(buckets@, i as int)),
{
    let mut k: usize = 0;
    while k < buckets.len()
        invariant
            k <= buckets@.len(),
            forall|j: int| 0 <= j < k ==> (#[trigger] buckets@[j]).balance.0 == 0,
        ensures
            k <= buckets@.len(),
            forall|j: int| 0 <= j < k ==> (#[trigger] buckets@[j]).balance.0 == 0,
            k < buckets@.len() ==> buckets@[k as int].balance.0 != 0,
        decreases buckets.len() - k,
    {
        if buckets[k].balance.0 != 0 {
            break;
        }
        k += 1;
    }
    if k == buckets.len() {
        return (None, None);
    }
    let mut best: usize = 0;
    let mut worst: usize = 0;
    let mut i: usize = 1;
    while i < buckets.len()
        invariant
            1 <= i <= buckets@.len(),
            is_best(buckets@.take(i as int), best as int),
            is_worst(buckets@.take(i as int), worst as int),
        decreases buckets.len() - i,
    {
        proof {
            assert forall|j: int| 0 <= j < i implies buckets@.take(i + 1)[j] == buckets@.take(i as int)[j] by {}
        }
        if buckets[i].balance.0 > buckets[best].balance.0 {
            best = i;
        }
        if buckets[i].balance.0 < buckets[worst].balance.0 {
            worst = i;
        }
        i += 1;
        proof {
            let t = buckets@.take(i as int);
            let p = buckets@.take(i - 1);
            assert forall|j: int| 0 <= j < t.len() implies (#[trigger] t[j]).balance.0 <= t[best as int].balance.0 by {
                if j < i - 1 {
                    assert(t[j] == p[j]);
                }
            }
            assert forall|j: int| 0 <= j < t.len() implies (#[trigger] t[j]).balance.0 >= t[worst as int].balance.0 by {
                if j < i - 1 {
                    assert(t[j] == p[j]);
                }
            }
            assert forall|j: int| 0 <= j < best implies (#[trigger] t[j]).balance.0 < t[best as int].balance.0 by {
                assert(t[j] == p[j]);
            }
            assert forall|j: int| 0 <= j < worst implies (#[trigger] t[j]).balance.0 > t[worst as int].balance.0 by {
                assert(t[j] == p[j]);
            }
        }
    }
    proof {
        assert(buckets@.take(buckets@.len() as int) =~= buckets@);
    }
    (Some(best), Some(worst))
}

/// A day's net: its gross less its sessions' deductions, never below zero.
pub open spec fn day_net(d: &Day, rules: &Rules) -> int {
    max(gross_of(d.entries@) - day_loss(d.entries@, rules.tiers@), 0)
}

/// The target held against a day.
pub open spec fn day_target(d: &Day, rules: &Rules, ctx: TodayCtx) -> int {
    if target_applies(d, ctx) {
        rules.daily_target.0 as int
    } else {
        0
    }
}

/// A past weekday marked as work with nothing booked.
pub open spec fn day_missing(d: &Day, ctx: TodayCtx) -> bool {
    d.date.num() < ctx.today.num() && working_day(d.date.num()) && d.kind@.0 == 0 && d.entries@.len() == 0
}

/// The nets of the days from the start date on.
pub open spec fn nets_from(days: Seq<Day>, rules: &Rules) -> int
    decreases days.len(),
{
    if days.len() == 0 {
        0
    } else {
        nets_from(days.drop_last(), rules) + if days.last().date.num() >= rules.start_date.num() {
            day_net(&days.last(), rules)
        } else {
            0
        }
    }
}

/// The targets of the days from the start date on.
pub open spec fn targets_from(days: Seq<Day>, rules: &Rules, ctx: TodayCtx) -> int
    decreases days.len(),
{
    if days.len() == 0 {
        0
    } else {
        targets_from(days.drop_last(), rules, ctx) + if days.last().date.num() >= rules.start_date.num() {
            day_target(&days.last(), rules, ctx)
        } else {
            0
        }
    }
}

/// How many days from the start date on are missing.
pub open spec fn missing_from(days: Seq<Day>, rules: &Rules, ctx: TodayCtx) -> int
    decreases days.len(),
{
    if days.len() == 0 {
        0
    } else {
        missing_from(days.drop_last(), rules, ctx) + if days.last().date.num() >= rules.start_date.num()
            && day_missing(&days.last(), ctx) {
            1int
        } else {
            0
        }
    }
}

/// How many of the days are weekdays of kind number `tag`.
pub open spec fn kind_days(days: Seq<Day>, tag: int) -> int
    decreases days.len(),
{
    if days.len() == 0 {
        0
    } else {
        kind_days(days.drop_last(), tag) + if working_day(days.last().date.num()) && days.last().kind@.0
            == tag {
            1int
        } else {
            0
        }
    }
}

proof fn lemma_nets_prefix(days: Seq<Day>, rules: &Rules, k: int)
    requires
        0 <= k <= days.len(),
    ensures
        0 <= nets_from(days.take(k), rules) <= nets_from(days, rules),
    decreases days.len() - k,
{
    if k == days.len() {
        assert(days.take(k) =~= days);
        lemma_nets_nonneg(days, rules);
    } else {
        lemma_nets_prefix(days.drop_last(), rules, k);
        assert(days.drop_last().take(k) =~= days.take(k));
    }
}

proof fn lemma_nets_nonneg(days: Seq<Day>, rules: &Rules)
    ensures
        nets_from(days, rules) >= 0,
    decreases days.len(),
{
    if days.len() > 0 {
        lemma_nets_nonneg(days.drop_last(), rules);
    }
}

/// What the statistics of a range are computed from.
pub struct StatsData {
    pub from: Date,
    pub to: Date,
    pub days: Vec<Day>,
    pub projects: Vec<Project>,
    /// Vacation working days taken in the whole calendar year of the range.
    pub vacation_used_year: u32,
    /// Whether a clock-in is open right now, for today's target rule.
    pub session_active: bool,
    /// The running balance through the day before `from`.
    pub carried_in: Minutes,
}

/// The figures the statistics screen shows.
pub struct StatsView {
    pub from: Date,
    pub to: Date,
    /// (project, net minutes, colour), most minutes first.
    pub project_totals: Vec<(String, Minutes, u8)>,
    /// The net time worked in the range: the sum of `project_totals`.
    pub total: Minutes,
    pub net: Minutes,
    pub target: Minutes,
    pub vacation_in_range: u32,
    pub vacation_used_year: u32,
    pub vacation_allowance: u32,
    pub sick: u32,
    pub flex: u32,
    pub holidays: u32,
    pub absences: u32,
    pub missing: u32,
    pub buckets: Vec<Bucket>,
    pub granularity: Granularity,
    /// The sum of the bucket balances.
    pub balance_total: Minutes,
    pub carried_in: Minutes,
    pub best: Option<usize>,
    pub worst: Option<usize>,
    /// The last day a cut-short chart may end at.
    pub cut_at: Date,
}

/// Whether every figure of the range fits: the day figures, the minutes
/// worked, the balances, every running sum of targets, and the day counts.
pub open spec fn stats_fit(data: &StatsData, rules: &Rules, cal: &HolidayCalendar, ctx: TodayCtx) -> bool {
    &&& days_fit(data.days@, rules, cal)
    &&& data.to@.0 < MAX_YEAR
    &&& data.days@.len() <= u32::MAX
    &&& magnitude(amounts(worked(data.days@, rules.tiers@))) <= i32::MAX
    &&& nets_from(data.days@, rules) <= i32::MAX
    &&& forall|k: int|
        0 <= k <= data.days@.len() ==> i32::MIN <= #[trigger] targets_from(data.days@.take(k), rules, ctx)
            <= i32::MAX
    &&& abs_span(data.days@, rules, ctx, data.from.num(), data.to.num()) + abs(data.carried_in.0 as int)
        <= i32::MAX
}

/// The net, target and missing days from the start date on, and the
/// weekdays of each kind, over the whole range.
fn range_figures(days: &[Day], rules: &Rules, cal: &HolidayCalendar, ctx: TodayCtx) -> (r: (
    i32,
    i32,
    u32,
    [u32; 6],
))
    requires
        days_fit(days@, rules, cal),
        days@.len() <= u32::MAX,
        nets_from(days@, rules) <= i32::MAX,
        forall|k: int|
            0 <= k <= days@.len() ==> i32::MIN <= #[trigger] targets_from(days@.take(k), rules, ctx)
                <= i32::MAX,
    ensures
        r.0 == nets_from(days@, rules),
        r.1 == targets_from(days@, rules, ctx),
        r.2 == missing_from(days@, rules, ctx),
        forall|t: int| 0 <= t < 6 ==> r.3@[t] == kind_days(days@, t),
{
    let mut net: i32 = 0;
    let mut target: i32 = 0;
    let mut missing: u32 = 0;
    let mut kinds: [u32; 6] = [0, 0, 0, 0, 0, 0];
    let mut k: usize = 0;
    proof {
        assert(days@.take(0) =~= Seq::<Day>::empty());
    }
    while k < days.len()
        invariant
            k <= days@.len(),
            days_fit(days@, rules, cal),
            days@.len() <= u32::MAX,
            nets_from(days@, rules) <= i32::MAX,
            forall|k: int|
                0 <= k <= days@.len() ==> i32::MIN <= #[trigger] targets_from(days@.take(k), rules, ctx)
                    <= i32::MAX,
            net == nets_from(days@.take(k as int), rules),
            target == targets_from(days@.take(k as int), rules, ctx),
            missing == missing_from(days@.take(k as int), rules, ctx),
            0 <= missing <= k,
            forall|t: int| 0 <= t < 6 ==> kinds@[t] == kind_days(days@.take(k as int), t) && 0 <= kinds@[t] <= k,
        decreases days.len() - k,
    {
        let ghost p = days@.take(k as int);
        let ghost q = days@.take(k + 1);
        proof {
            assert(q.drop_last() =~= p);
            assert(q.last() == days@[k as int]);
            assert(day_fits(&days@[k as int], rules));
            lemma_nets_prefix(days@, rules, k + 1);
            assert(i32::MIN <= targets_from(q, rules, ctx) <= i32::MAX);
        }
        let day = &days[k];
        let s = day_stats(day, rules, cal, &ctx);
        if rules.start_date.not_after(&day.date) {
            net = net + s.net.0;
            target = target + s.target.0;
            if s.missing {
                missing = missing + 1;
            }
        }
        if is_working_day(day.date) {
            let t = day.kind.tag() as usize;
            kinds.set(t, kinds[t] + 1);
        }
        proof {
            assert forall|t: int| 0 <= t < 6 implies kinds@[t] == kind_days(q, t) && 0 <= kinds@[t] <= k + 1 by {
                assert(kind_days(q, t) == kind_days(p, t) + if working_day(days@[k as int].date.num())
                    && days@[k as int].kind@.0 == t {
                    1int
                } else {
                    0
                });
            }
        }
        k += 1;
    }
    proof {
        assert(days@.take(days@.len() as int) =~= days@);
    }
    (net, target, missing, kinds)
}

/// Aggregate a range's data into what the statistics screen shows: the
/// balance, target and missing days from the start date on, the weekdays of
/// each kind, the net time per project, the chart's buckets with their best
/// and worst, and where a cut-short chart may end.
pub fn build_stats(
    data: &StatsData,
    rules: &Rules,
    cal: &HolidayCalendar,
    today: Date,
    anchor: Date,
    allowance: u32,
    kind: RangeKind,
) -> (r: StatsView)
    requires
        stats_fit(data, rules, cal, TodayCtx { today, clocked_in: data.session_active }),
    ensures
        ({
            let ctx = TodayCtx { today, clocked_in: data.session_active };
            let days = data.days@;
            &&& r.from == data.from && r.to == data.to
            &&& lists_totals(total_view(r.project_totals@), worked(days, rules.tiers@), data.projects@)
            &&& r.total.0 == total(amounts(worked(days, rules.tiers@)))
            &&& r.net.0 == nets_from(days, rules)
            &&& r.target.0 == targets_from(days, rules, ctx)
            &&& r.missing == missing_from(days, rules, ctx)
            &&& r.vacation_in_range == kind_days(days, 1)
            &&& r.flex == kind_days(days, 2)
            &&& r.holidays == kind_days(days, 3)
            &&& r.sick == kind_days(days, 4)
            &&& r.absences == kind_days(days, 5)
            &&& r.vacation_used_year == data.vacation_used_year
            &&& r.vacation_allowance == allowance
            &&& r.granularity == granularity_of(kind)
            &&& bucketed(
                bucket_view(r.buckets@),
                days,
                rules,
                ctx,
                data.from,
                data.to,
                granularity_of(kind),
                data.carried_in.0 as int,
            )
            &&& r.balance_total.0 == span_balance(days, rules, ctx, data.from.num(), data.to.num())
            &&& r.carried_in == data.carried_in
            &&& (all_flat(r.buckets@) ==> r.best is None && r.worst is None)
            &&& (!all_flat(r.buckets@) ==> (r.best matches Some(i) && is_best(r.buckets@, i as int)))
            &&& (!all_flat(r.buckets@) ==> (r.worst matches Some(i) && is_worst(r.buckets@, i as int)))
            &&& r.cut_at == (if today.num() < anchor.num() {
                today
            } else {
                anchor
            })
        }),
{
    let ctx = TodayCtx { today, clocked_in: data.session_active };
    let (net, target, missing, kinds) = range_figures(data.days.as_slice(), rules, cal, ctx);
    let (project_totals, total) = project_totals(data.days.as_slice(), rules.tiers.as_slice(), data.projects.as_slice());
    let granularity = granularity_for(kind);
    let buckets = build_buckets(
        data.days.as_slice(),
        rules,
        cal,
        today,
        data.session_active,
        data.from,
        data.to,
        granularity,
        data.carried_in,
    );
    let balance_total = bucket_sum(&buckets, data.days.as_slice(), rules, ctx, data.from, data.to, granularity, data.carried_in);
    let (best, worst) = best_worst(buckets.as_slice());
    StatsView {
        from: data.from,
        to: data.to,
        project_totals,
        total,
        net: Minutes(net),
        target: Minutes(target),
        vacation_in_range: kinds[1],
        vacation_used_year: data.vacation_used_year,
        vacation_allowance: allowance,
        sick: kinds[4],
        flex: kinds[2],
        holidays: kinds[3],
        absences: kinds[5],
        missing,
        buckets,
        granularity,
        balance_total: Minutes(balance_total),
        carried_in: data.carried_in,
        best,
        worst,
        cut_at: anchor.min(today),
    }
}

/// The bucket balances summed: the balance of the whole range.
fn bucket_sum(
    buckets: &Vec<Bucket>,
    days: &[Day],
    rules: &Rules,
    ctx: TodayCtx,
    from: Date,
    to: Date,
    g: Granularity,
    carried_in: Minutes,
) -> (r: i32)
    requires
        bucketed(bucket_view(buckets@), days@, rules, ctx, from, to, g, carried_in.0 as int),
        abs_span(days@, rules, ctx, from.num(), to.num()) + abs(carried_in.0 as int) <= i32::MAX,
    ensures
        r == span_balance(days@, rules, ctx, from.num(), to.num()),
{
    let ghost b = bucket_view(buckets@);
    let mut sum: i32 = 0;
    let ghost mut cur_end: int = from.num() - 1;
    let mut i: usize = 0;
    proof {
        lemma_span_empty(days@, rules, ctx, from.num(), from.num() - 1);
    }
    while i < buckets.len()
        invariant
            i <= buckets@.len(),
            b == bucket_view(buckets@),
            bucketed(b, days@, rules, ctx, from, to, g, carried_in.0 as int),
            abs_span(days@, rules, ctx, from.num(), to.num()) + abs(carried_in.0 as int) <= i32::MAX,
            cur_end == (if i == 0 {
                from.num() - 1
            } else {
                b[i - 1].3.num()
            }),
            i > 0 ==> cur_end <= to.num(),
            from.num() <= cur_end + 1,
            sum == span_balance(days@, rules, ctx, from.num(), cur_end),
        decreases buckets.len() - i,
    {
        proof {
            let bi = b[i as int];
            assert(bi.1 == span_balance(days@, rules, ctx, bi.2.num(), bi.3.num()));
            assert(bi.3.num() == min(bucket_end_num(bi.2, g), to.num()) && bi.2.num() <= bi.3.num());
            if i == 0 {
                assert(b[0].2 == from);
            } else {
                let m = i - 1;
                assert(b[m + 1].2.num() == b[m].3.num() + 1);
            }
            lemma_span_split(days@, rules, ctx, from.num(), cur_end, bi.3.num());
            lemma_span_bound(days@, rules, ctx, from.num(), bi.3.num(), from.num(), to.num());
        }
        sum = sum + buckets[i].balance.0;
        proof {
            cur_end = b[i as int].3.num();
        }
        i += 1;
    }
    proof {
        if buckets@.len() > 0 {
            assert(b[b.len() - 1].3.num() == to.num());
        } else {
            lemma_span_empty(days@, rules, ctx, from.num(), to.num());
        }
    }
    sum
}

/// One past the last bucket opening no later than `cut`, or `None`.
pub open spec fn last_open(b: Seq<Bucket>, cut: Date) -> Option<int>
    decreases b.len(),
{
    if b.len() == 0 {
        None
    } else if b.last().from.num() <= cut.num() {
        Some(b.len() - 1)
    } else {
        last_open(b.drop_last(), cut)
    }
}

/// The buckets a panel `rows` tall shows, as a range of indices: all of
/// them when they fit; else the `rows` ones ending at the bucket the cut
/// falls in (so a year seen in September does not scroll away into empty
/// winter months), or at the last when none opens by then.
pub open spec fn shown_range(b: Seq<Bucket>, cut: Date, rows: int) -> (int, int) {
    if rows >= b.len() {
        (0, b.len() as int)
    } else {
        let e0 = match last_open(b, cut) {
            Some(i) => i + 1,
            None => b.len() as int,
        };
        let e = if e0 < rows {
            rows
        } else {
            e0
        };
        (e - rows, e)
    }
}

/// Which buckets a chart `rows` tall shows: the start and the end of that
/// slice.
pub fn visible_buckets(buckets: &[Bucket], cut_at: Date, rows: usize) -> (r: (usize, usize))
    ensures
        r.0 <= r.1 <= buckets@.len(),
        (r.0 as int, r.1 as int) == shown_range(buckets@, cut_at, rows as int),
{
    if rows >= buckets.len() {
        return (0, buckets.len());
    }
    let mut i: usize = buckets.len();
    let mut found = false;
    proof {
        assert(buckets@.take(buckets@.len() as int) =~= buckets@);
    }
    while i > 0 && !found
        invariant
            i <= buckets@.len(),
            !found ==> last_open(buckets@, cut_at) == last_open(buckets@.take(i as int), cut_at),
            found ==> i >= 1 && last_open(buckets@, cut_at) == Some((i - 1) as int),
        decreases i + (if found { 0int } else { 1int }),
    {
        proof {
            assert(buckets@.take(i as int).drop_last() =~= buckets@.take(i - 1));
            assert(buckets@.take(i as int).last() == buckets@[i - 1]);
        }
        if buckets[i - 1].from.not_after(&cut_at) {
            found = true;
        } else {
            i -= 1;
        }
    }
    proof {
        if !found {
            assert(buckets@.take(0) =~= Seq::<Bucket>::empty());
        }
        assert(buckets@.take(buckets@.len() as int) =~= buckets@);
    }
    let e0 = if found {
        i
    } else {
        buckets.len()
    };
    let e = if e0 < rows {
        rows
    } else {
        e0
    };
    (e - rows, e)
}

/// What one bar measures in `mode`: the bucket's own balance, or the
/// balance as it stood when the period ended.
pub fn bar_value(b: &Bucket, mode: crate::ui::ChartMode) -> (r: Minutes)
    ensures
        r == (match mode {
            crate::ui::ChartMode::PerPeriod => b.balance,
            crate::ui::ChartMode::Running => b.running,
        }),
{
    match mode {
        crate::ui::ChartMode::PerPeriod => b.balance,
        crate::ui::ChartMode::Running => b.running,
    }
}

/// The rows the chart panel gets out of a screen `height` rows tall: none
/// without buckets or without room for one bar besides the other panels,
/// else one per bucket and five more, as far as there is room.
pub fn chart_height(buckets: usize, height: u16) -> (r: u16)
    ensures
        ({
            let available = if height >= 14 {
                height - 14
            } else {
                0
            };
            r == (if buckets == 0 || available < 6 {
                0
            } else if buckets + 5 < available {
                buckets + 5
            } else {
                available
            })
        }),
{
    let available: u16 = if height >= 14 {
        height - 14
    } else {
        0
    };
    if buckets == 0 || available < 6 {
        return 0;
    }
    if buckets < (available - 5) as usize {
        (buckets + 5) as u16
    } else {
        available
    }
}

} // verus!
