//! What a day is worth: its gross, what its breaks cost, its net, the target
//! it is held to and the balance it leaves; and the running balance.
use crate::breaks::{
    BreakTier, deduction, entries_sane, entry_intervals, entry_nets, grosses, intervals_of,
    lemma_merged, lemma_merged_bounds, lemma_sane_within, lemma_sort_props, merged, nets_of,
    recorded_gaps, gaps_in, session_deduction, session_lengths_fit, sessions_deduction, sessions_of, tiers_sane,
    sort_by_start, tagged, tier_deduction, total, minutes_seq, max,
};
use crate::date::{Date, DateTime, Time, weekday_of};
use crate::error::CoreError;
use crate::holidays::{HolidayCalendar, first_on, known_on, listed, sorted_list};
use crate::minutes::Minutes;
use crate::types::{Day, DayKind, Entry, span};
use vstd::prelude::*;

verus! {

/// The rules a day is measured by.
#[derive(Debug, PartialEq, Eq)]
pub struct Rules {
    pub daily_target: Minutes,
    pub tiers: Vec<BreakTier>,
    pub start_date: Date,
    pub initial_balance: Minutes,
}

/// What day it is, and whether the clock is running.
#[derive(Clone, Copy, Debug, PartialEq, Eq)]
pub struct TodayCtx {
    pub today: Date,
    pub clocked_in: bool,
}

/// The figures of one day.
#[derive(Debug, PartialEq, Eq)]
pub struct DayStats {
    pub date: Date,
    pub kind: DayKind,
    pub gross: Minutes,
    /// The pauses recorded between the day's entries.
    pub gaps: Minutes,
    pub deduction: Minutes,
    pub net: Minutes,
    pub target: Minutes,
    pub balance: Minutes,
    pub missing: bool,
    pub holiday_name: Option<String>,
    pub is_weekend: bool,
    /// The net of every entry, aligned with the day's entries.
    pub entry_nets: Vec<Minutes>,
}

impl Clone for DayStats {
    fn clone(&self) -> (r: DayStats)
        ensures
            r.date == self.date,
            r.kind == self.kind,
            r.gross == self.gross,
            r.gaps == self.gaps,
            r.deduction == self.deduction,
            r.net == self.net,
            r.target == self.target,
            r.balance == self.balance,
            r.missing == self.missing,
            r.holiday_name == self.holiday_name,
            r.is_weekend == self.is_weekend,
            r.entry_nets@ == self.entry_nets@,
    {
        let mut nets: Vec<Minutes> = Vec::new();
        let mut i: usize = 0;
        while i < self.entry_nets.len()
            invariant
                i <= self.entry_nets@.len(),
                nets@ == self.entry_nets@.take(i as int),
            decreases self.entry_nets.len() - i,
        {
            nets.push(self.entry_nets[i]);
            i += 1;
            proof {
                assert(nets@ =~= self.entry_nets@.take(i as int));
            }
        }
        proof {
            assert(self.entry_nets@.take(self.entry_nets@.len() as int) =~= self.entry_nets@);
        }
        DayStats {
            date: self.date,
            kind: self.kind.clone(),
            gross: self.gross,
            gaps: self.gaps,
            deduction: self.deduction,
            net: self.net,
            target: self.target,
            balance: self.balance,
            missing: self.missing,
            holiday_name: match &self.holiday_name {
                Some(n) => Some(n.clone()),
                None => None,
            },
            is_weekend: self.is_weekend,
            entry_nets: nets,
        }
    }
}

/// Monday to Friday.
pub open spec fn working_day(n: int) -> bool {
    weekday_of(n) < 5
}

/// Monday to Friday are working days.
pub fn is_working_day(d: Date) -> (r: bool)
    ensures
        r == working_day(d.num()),
{
    d.weekday() < 5
}

/// The kind a day has: the stored one, else a holiday on a holiday, else a
/// work day.
pub fn effective_kind(stored: Option<&DayKind>, date: Date, cal: &HolidayCalendar) -> (r: DayKind)
    requires
        known_on(cal.extra(), date),
    ensures
        stored matches Some(k) ==> r == *k,
        stored is None ==> (r@.0 == 3 <==> (listed(cal.extra(), date) || first_on(
            sorted_list(date@.0),
            date.num(),
        ) is Some)),
        stored is None ==> (r@.0 == 3 || r@.0 == 0),
{
    if let Some(k) = stored {
        return k.clone();
    }
    if cal.is_holiday(date) {
        DayKind::Holiday
    } else {
        DayKind::Work
    }
}

/// The gross of a day's entries.
pub open spec fn gross_of(e: Seq<Entry>) -> int {
    total(grosses(e))
}

/// What a day's sessions lose; a day without work loses nothing.
pub open spec fn day_loss(e: Seq<Entry>, t: Seq<BreakTier>) -> int {
    if gross_of(e) > 0 {
        sessions_deduction(sessions_of(entry_intervals(e)), t)
    } else {
        0
    }
}

/// Whether the daily target is held against a day.
pub open spec fn target_applies(day: &Day, ctx: TodayCtx) -> bool {
    let n = day.date.num();
    let today = ctx.today.num();
    &&& working_day(n)
    &&& (day.kind@.0 == 0 || day.kind@.0 == 2)
    &&& (n < today || (n == today && !ctx.clocked_in && day.entries@.len() > 0))
}

/// Whether a day's figures fit in `i32`: its gross, its loss, its net and
/// its balance.
pub open spec fn day_fits(day: &Day, rules: &Rules) -> bool {
    let g = gross_of(day.entries@);
    let d = day_loss(day.entries@, rules.tiers@);
    &&& g <= i32::MAX
    &&& i32::MIN <= d <= i32::MAX
    &&& i32::MIN <= g - d <= i32::MAX
    &&& i32::MIN <= max(g - d, 0) - rules.daily_target.0 <= i32::MAX
    &&& day.entries@.len() <= u32::MAX
}

/// The gross of the entries: their lengths summed.
pub fn gross_minutes(entries: &[Entry]) -> (r: Minutes)
    requires
        gross_of(entries@) <= i32::MAX,
    ensures
        r.0 == gross_of(entries@),
        r.0 >= 0,
{
    let _ = intervals_of(entries);
    proof {
        lemma_sane_grosses(entries@);
    }
    let mut sum: i64 = 0;
    let mut i: usize = 0;
    proof {
        lemma_total_prefix(grosses(entries@), 0);
    }
    while i < entries.len()
        invariant
            i <= entries.len(),
            sum == total(grosses(entries@).take(i as int)),
            gross_of(entries@) <= i32::MAX,
            0 <= sum <= gross_of(entries@),
            forall|k: int| 0 <= k < grosses(entries@).len() ==> 0 <= #[trigger] grosses(entries@)[k],
        decreases entries.len() - i,
    {
        let d = entries[i].duration();
        proof {
            assert(grosses(entries@).take(i + 1).drop_last() =~= grosses(entries@).take(i as int));
            lemma_total_prefix(grosses(entries@), i + 1);
        }
        sum = sum + d.0 as i64;
        i += 1;
    }
    proof {
        assert(grosses(entries@).take(entries@.len() as int) =~= grosses(entries@));
    }
    Minutes(sum as i32)
}

/// Entries run between a minute and a day.
pub proof fn lemma_sane_grosses(e: Seq<Entry>)
    requires
        entries_sane(e),
    ensures
        forall|k: int| 0 <= k < grosses(e).len() ==> 1 <= #[trigger] grosses(e)[k] <= 1440,
{
    assert forall|k: int| 0 <= k < grosses(e).len() implies 1 <= #[trigger] grosses(e)[k] <= 1440 by {
        assert(0 <= e[k].iv().0 < 1440 && e[k].iv().0 < e[k].iv().1 <= e[k].iv().0 + 1440);
    }
}

/// A prefix of lengths of entries adds up to no more than all of them, and
/// to no less than nothing.
pub proof fn lemma_total_prefix(g: Seq<int>, i: int)
    requires
        0 <= i <= g.len(),
        forall|k: int| 0 <= k < g.len() ==> 0 <= #[trigger] g[k],
    ensures
        0 <= total(g.take(i)) <= total(g),
    decreases g.len() - i,
{
    if i < g.len() {
        assert forall|k: int| 0 <= k < g.drop_last().len() implies 0 <= #[trigger] g.drop_last()[k] by {
            assert(g.drop_last()[k] == g[k]);
        }
        lemma_total_prefix(g.drop_last(), i);
        assert(g.drop_last().take(i) =~= g.take(i));
        assert(g.last() == g[g.len() - 1]);
    } else {
        assert(g.take(i) =~= g);
        lemma_total_nonneg(g);
    }
}

proof fn lemma_total_nonneg(g: Seq<int>)
    requires
        forall|k: int| 0 <= k < g.len() ==> 0 <= #[trigger] g[k],
    ensures
        total(g) >= 0,
    decreases g.len(),
{
    if g.len() > 0 {
        assert forall|k: int| 0 <= k < g.drop_last().len() implies 0 <= #[trigger] g.drop_last()[k] by {
            assert(g.drop_last()[k] == g[k]);
        }
        lemma_total_nonneg(g.drop_last());
        assert(g.last() == g[g.len() - 1]);
    }
}

/// The sessions of a day's entries are no longer than two days.
proof fn lemma_day_sessions(e: Seq<Entry>)
    requires
        entries_sane(e),
    ensures
        session_lengths_fit(entry_intervals(e)),
{
    lemma_sane_within(e);
    lemma_sort_props(tagged(entry_intervals(e)), 0, 2880);
    lemma_merged_bounds(sort_by_start(tagged(entry_intervals(e))), 0, 2880, 0);
}

/// The figures `r` gives of `day`: the gross is what the entries add up to;
/// each seamless session loses the deduction of its tier, and the net is
/// what is left, never below zero. The target is held against a weekday
/// whose kind has one once the day is past, or today once something is
/// booked and the clock is not running. A past weekday marked as work
/// without any entry is missing.
pub open spec fn day_figures(r: &DayStats, day: &Day, rules: &Rules, cal: &HolidayCalendar, ctx: TodayCtx) -> bool {
    &&& r.date == day.date
    &&& r.kind == day.kind
    &&& r.gross.0 == gross_of(day.entries@)
    &&& r.gaps.0 == gaps_in(entry_intervals(day.entries@))
    &&& r.deduction.0 == day_loss(day.entries@, rules.tiers@)
    &&& r.net.0 == max(gross_of(day.entries@) - day_loss(day.entries@, rules.tiers@), 0)
    &&& r.target.0 == (if target_applies(day, ctx) {
        rules.daily_target.0 as int
    } else {
        0
    })
    &&& r.balance.0 == r.net.0 - r.target.0
    &&& r.missing == (day.date.num() < ctx.today.num() && working_day(day.date.num()) && day.kind@.0
        == 0 && day.entries@.len() == 0)
    &&& r.is_weekend == !working_day(day.date.num())
    &&& (r.holiday_name matches Some(s) ==> (listed(cal.extra(), day.date) && s@ == "Extra holiday"@)
        || first_on(sorted_list(day.date@.0), day.date.num()) == Some(s@))
    &&& (r.holiday_name is None <==> !listed(cal.extra(), day.date) && first_on(
        sorted_list(day.date@.0),
        day.date.num(),
    ) is None)
    &&& minutes_seq(r.entry_nets@) == nets_of(day.entries@, rules.tiers@)
}

/// The figures of a day, as [`day_figures`] states them.
pub fn day_stats(day: &Day, rules: &Rules, cal: &HolidayCalendar, ctx: &TodayCtx) -> (r: DayStats)
    requires
        day_fits(day, rules),
        known_on(cal.extra(), day.date),
    ensures
        day_figures(&r, day, rules, cal, *ctx),
        entries_sane(day.entries@),
{
    let entries = day.entries.as_slice();
    let gross = gross_minutes(entries);
    let gaps = recorded_gaps(entries);
    let iv = intervals_of(entries);
    let ded = if gross.0 > 0 {
        proof {
            lemma_day_sessions(day.entries@);
        }
        session_deduction(&iv, &rules.tiers)
    } else {
        Minutes(0)
    };
    let diff = gross.0 - ded.0;
    let net = Minutes(if diff < 0 {
        0
    } else {
        diff
    });
    let is_weekend = !is_working_day(day.date);
    let is_past = day.date.before(&ctx.today);
    let is_today = day.date.same(&ctx.today);
    let applies = !is_weekend && day.kind.has_target() && (is_past || (is_today && !ctx.clocked_in
        && entries.len() > 0));
    let target = if applies {
        rules.daily_target
    } else {
        Minutes(0)
    };
    let missing = is_past && !is_weekend && day.kind.is_work() && entries.len() == 0;
    let holiday_name = cal.holiday_name(day.date);
    let nets = entry_nets(entries, &rules.tiers);
    DayStats {
        date: day.date,
        kind: day.kind.clone(),
        gross,
        gaps,
        deduction: ded,
        net,
        target,
        balance: Minutes(net.0 - target.0),
        missing,
        holiday_name,
        is_weekend,
        entry_nets: nets,
    }
}

/// What a day adds to the balance: its net less the target held against it.
pub open spec fn day_balance(day: &Day, rules: &Rules, ctx: TodayCtx) -> int {
    max(gross_of(day.entries@) - day_loss(day.entries@, rules.tiers@), 0) - if target_applies(
        day,
        ctx,
    ) {
        rules.daily_target.0 as int
    } else {
        0
    }
}

/// The balances of the days from `start` on, summed.
pub open spec fn balances_from(s: Seq<DayStats>, start: int) -> int
    decreases s.len(),
{
    if s.len() == 0 {
        0
    } else {
        balances_from(s.drop_last(), start) + if s.last().date.num() >= start {
            s.last().balance.0 as int
        } else {
            0
        }
    }
}

/// The balances of some days, every one of them counted.
pub open spec fn balance_sum(s: Seq<DayStats>) -> int
    decreases s.len(),
{
    if s.len() == 0 {
        0
    } else {
        balance_sum(s.drop_last()) + s.last().balance.0
    }
}

/// The start date itself counts, and so does every day after it: over days
/// none of which lies before `start`, the balance from `start` on is the
/// sum of all their balances.
pub proof fn every_day_from_the_start_date_counts(s: Seq<DayStats>, start: int)
    requires
        forall|i: int| 0 <= i < s.len() ==> start <= (#[trigger] s[i]).date.num(),
    ensures
        balances_from(s, start) == balance_sum(s),
    decreases s.len(),
{
    if s.len() > 0 {
        assert forall|i: int| 0 <= i < s.drop_last().len() implies start <= (
        #[trigger] s.drop_last()[i]).date.num() by {
            assert(s.drop_last()[i] == s[i]);
        }
        every_day_from_the_start_date_counts(s.drop_last(), start);
        assert(s.last() == s[s.len() - 1]);
    }
}

/// No day before the start date counts: over days that all lie before
/// `start`, the balance from `start` on is nothing.
pub proof fn days_before_the_start_date_do_not_count(s: Seq<DayStats>, start: int)
    requires
        forall|i: int| 0 <= i < s.len() ==> (#[trigger] s[i]).date.num() < start,
    ensures
        balances_from(s, start) == 0,
    decreases s.len(),
{
    if s.len() > 0 {
        assert forall|i: int| 0 <= i < s.drop_last().len() implies (#[trigger] s.drop_last()[i]).date.num()
            < start by {
            assert(s.drop_last()[i] == s[i]);
        }
        days_before_the_start_date_do_not_count(s.drop_last(), start);
        assert(s.last() == s[s.len() - 1]);
    }
}

/// The balance from a start date adds up over any split of the days: what
/// the first part counts plus what the second counts.
pub proof fn the_balance_adds_up_over_parts(a: Seq<DayStats>, b: Seq<DayStats>, start: int)
    ensures
        balances_from(a + b, start) == balances_from(a, start) + balances_from(b, start),
    decreases b.len(),
{
    if b.len() == 0 {
        assert(a + b =~= a);
    } else {
        assert((a + b).drop_last() =~= a + b.drop_last());
        assert((a + b).last() == b.last());
        the_balance_adds_up_over_parts(a, b.drop_last(), start);
    }
}

/// The balance carried in plus that of every day from the start date on.
pub fn running_balance(stats: &[DayStats], rules: &Rules) -> (r: Minutes)
    requires
        forall|i: int|
            0 <= i <= stats@.len() ==> i32::MIN <= rules.initial_balance.0 + #[trigger] balances_from(
                stats@.take(i),
                rules.start_date.num(),
            ) <= i32::MAX,
    ensures
        r.0 == rules.initial_balance.0 + balances_from(stats@, rules.start_date.num()),
{
    let mut sum: i32 = rules.initial_balance.0;
    let mut i: usize = 0;
    proof {
        assert(stats@.take(0) =~= Seq::<DayStats>::empty());
    }
    while i < stats.len()
        invariant
            i <= stats.len(),
            sum == rules.initial_balance.0 + balances_from(stats@.take(i as int), rules.start_date.num()),
            forall|i: int|
                0 <= i <= stats@.len() ==> i32::MIN <= rules.initial_balance.0 + #[trigger] balances_from(
                    stats@.take(i),
                    rules.start_date.num(),
                ) <= i32::MAX,
        decreases stats.len() - i,
    {
        proof {
            assert(stats@.take(i + 1).drop_last() =~= stats@.take(i as int));
            assert(stats@.take(i + 1).last() == stats@[i as int]);
            let _ = balances_from(stats@.take(i + 1), rules.start_date.num());
        }
        if rules.start_date.not_after(&stats[i].date) {
            sum = sum + stats[i].balance.0;
        }
        i += 1;
    }
    proof {
        assert(stats@.take(stats@.len() as int) =~= stats@);
    }
    Minutes(sum)
}

/// Whether the span `(s, e)` overlaps an entry of `existing` other than the
/// one with id `ignore`.
pub open spec fn overlaps(existing: Seq<Entry>, s: int, e: int, ignore: Option<i64>) -> bool {
    exists|k: int|
        0 <= k < existing.len() && ignore != Some(#[trigger] existing[k].id) && s < existing[k].iv().1
            && e > existing[k].iv().0
}

/// Refuses a span `start`–`end` (past midnight when `end` is not after
/// `start`) that overlaps an entry of `existing`, leaving out the one being
/// edited. Entries that only touch do not overlap.
pub fn check_overlap(existing: &[Entry], start: Time, end: Time, ignore_id: Option<i64>) -> (r: Result<
    (),
    CoreError,
>)
    ensures
        r is Ok <==> !overlaps(existing@, span(start.mins(), end.mins()).0, span(start.mins(), end.mins()).1, ignore_id),
        r matches Err(e) ==> e == CoreError::Overlap,
{
    let ns = start.minute_of_day();
    let mut ne = end.minute_of_day();
    if ne <= ns {
        ne += 1440;
    }
    let mut i: usize = 0;
    while i < existing.len()
        invariant
            i <= existing.len(),
            ns == span(start.mins(), end.mins()).0,
            ne == span(start.mins(), end.mins()).1,
            forall|k: int|
                0 <= k < i ==> !(ignore_id != Some(#[trigger] existing@[k].id) && ns < existing@[k].iv().1
                    && ne > existing@[k].iv().0),
        decreases existing.len() - i,
    {
        let e = &existing[i];
        let other = match ignore_id {
            Some(id) => id != e.id,
            None => true,
        };
        if other {
            let (os, oe) = e.interval();
            if ns < oe && ne > os {
                proof {
                    let k = i as int;
                    assert(ignore_id != Some(existing@[k].id) && ns < existing@[k].iv().1 && ne
                        > existing@[k].iv().0);
                }
                return Err(CoreError::Overlap);
            }
        }
        i += 1;
    }
    Ok(())
}

/// Whole minutes from `start` to `now`, none when `now` is not later, as
/// `i32`.
pub open spec fn elapsed(start: DateTime, now: DateTime) -> i32 {
    max((now.secs() - start.secs()) / 60, 0) as i32
}

/// Minutes elapsed in a running session, as whole date-times: a session that
/// started yesterday keeps counting past midnight. A clock that has not
/// reached `start` yet counts nothing.
pub fn running_minutes(session_start: DateTime, now: DateTime) -> (r: Minutes)
    ensures
        r.0 == elapsed(session_start, now),
{
    let d0 = session_start.date.num_days_from_ce() as i64;
    let d1 = now.date.num_days_from_ce() as i64;
    let t0 = session_start.time;
    let t1 = now.time;
    t0.valid();
    t1.valid();
    let s0 = t0.hour() as i64 * 3600 + t0.minute() as i64 * 60 + t0.second() as i64;
    let s1 = t1.hour() as i64 * 3600 + t1.minute() as i64 * 60 + t1.second() as i64;
    let secs = (d1 - d0) * 86400 + (s1 - s0);
    let m = if secs < 0 {
        0
    } else {
        secs / 60
    };
    proof {
        assert(secs == now.secs() - session_start.secs());
    }
    Minutes(m as i32)
}

/// The net a day would have with `running` more minutes worked, its loss
/// taken on the gross as a whole.
pub fn provisional_net_with(entries: &[Entry], running: Minutes, rules: &Rules) -> (r: Minutes)
    requires
        gross_of(entries@) + running.0 <= i32::MAX,
        running.0 >= 0,
        i32::MIN <= gross_of(entries@) + running.0 - tier_deduction(
            rules.tiers@,
            gross_of(entries@) + running.0,
        ) <= i32::MAX,
    ensures
        r.0 == max(
            gross_of(entries@) + running.0 - tier_deduction(rules.tiers@, gross_of(entries@) + running.0),
            0,
        ),
{
    let gross = gross_minutes(entries);
    let g = Minutes(gross.0 + running.0);
    let d = deduction(g, &rules.tiers);
    let n = g.0 - d.0;
    Minutes(if n < 0 {
        0
    } else {
        n
    })
}

/// Minutes a clock running since `since` shows at `now` on the same day,
/// past midnight when `now` is not later; none when it reads its start.
pub open spec fn clock_run(since: Time, now: Time) -> int {
    if now == since {
        0
    } else {
        span(since.mins(), now.mins()).1 - span(since.mins(), now.mins()).0
    }
}

/// Net for today if the clock-in running since `running_since` were closed at
/// `now`, both on the same day.
pub fn provisional_net(entries: &[Entry], running_since: Time, now: Time, rules: &Rules) -> (r: Minutes)
    requires
        gross_of(entries@) + clock_run(running_since, now) <= i32::MAX,
        i32::MIN <= gross_of(entries@) + clock_run(running_since, now) - tier_deduction(
            rules.tiers@,
            gross_of(entries@) + clock_run(running_since, now),
        ) <= i32::MAX,
    ensures
        r.0 == max(
            gross_of(entries@) + clock_run(running_since, now) - tier_deduction(
                rules.tiers@,
                gross_of(entries@) + clock_run(running_since, now),
            ),
            0,
        ),
{
    let s = running_since.minute_of_day();
    let mut e = now.minute_of_day();
    if e <= s {
        e += 1440;
    }
    let same = now.hour() == running_since.hour() && now.minute() == running_since.minute()
        && now.second() == running_since.second();
    proof {
        running_since.lemma_view_eq(now);
    }
    let running = if same {
        Minutes(0)
    } else {
        Minutes(e - s)
    };
    provisional_net_with(entries, running, rules)
}

/// The intervals of a day's entries and of a session running since minute
/// `s` for `run` minutes.
pub open spec fn with_running(e: Seq<Entry>, s: int, run: int) -> Seq<(i32, i32)> {
    entry_intervals(e).push((s as i32, (s + run) as i32))
}

/// What a day would lose if the running session were booked as it stands.
pub open spec fn provisional_loss(e: Seq<Entry>, s: int, run: int, t: Seq<BreakTier>) -> int {
    if gross_of(e) + run > 0 {
        sessions_deduction(sessions_of(with_running(e, s, run)), t)
    } else {
        0
    }
}

/// Net for today if the session running since `start` for `running` minutes
/// were closed right now: the running session counts as one more interval,
/// so the figures are the ones the day will have once the clock stops.
pub fn provisional_net_for(entries: &[Entry], start: Time, running: Minutes, rules: &Rules) -> (r:
    Minutes)
    requires
        running.0 >= 0,
        gross_of(entries@) + running.0 <= i32::MAX,
        start.mins() + running.0 <= i32::MAX,
        entries@.len() < u32::MAX,
        session_lengths_fit(with_running(entries@, start.mins(), running.0 as int)),
        i32::MIN <= provisional_loss(entries@, start.mins(), running.0 as int, rules.tiers@) <= i32::MAX,
        i32::MIN <= gross_of(entries@) + running.0 - provisional_loss(
            entries@,
            start.mins(),
            running.0 as int,
            rules.tiers@,
        ) <= i32::MAX,
    ensures
        r.0 == max(
            gross_of(entries@) + running.0 - provisional_loss(
                entries@,
                start.mins(),
                running.0 as int,
                rules.tiers@,
            ),
            0,
        ),
{
    let gross = gross_minutes(entries);
    let s = start.minute_of_day();
    let mut iv = intervals_of(entries);
    iv.push((s, s + running.0));
    let g = gross.0 + running.0;
    let ded = if g > 0 {
        session_deduction(&iv, &rules.tiers)
    } else {
        Minutes(0)
    };
    let n = g - ded.0;
    Minutes(if n < 0 {
        0
    } else {
        n
    })
}

/// The nets of a day's entries add up to the day's gross less what its
/// sessions lose, and so to the day's net wherever the day does not lose
/// more than it worked: the hours on the projects are the hours on the
/// balance.
pub proof fn lemma_project_time_is_net_time(e: Seq<Entry>, t: Seq<BreakTier>)
    requires
        e.len() <= usize::MAX,
        entries_sane(e),
        tiers_sane(t),
    ensures
        total(nets_of(e, t)) == gross_of(e) - day_loss(e, t),
        day_loss(e, t) <= gross_of(e) ==> total(nets_of(e, t)) == max(gross_of(e) - day_loss(e, t), 0),
{
    crate::sharing::lemma_nets_add_up(e, t);
    lemma_sane_grosses(e);
    if gross_of(e) <= 0 {
        lemma_total_positive(grosses(e));
        assert(e.len() == 0);
        assert(sessions_of(entry_intervals(e)).len() == 0);
    }
}

proof fn lemma_total_positive(g: Seq<int>)
    requires
        forall|k: int| 0 <= k < g.len() ==> 1 <= #[trigger] g[k],
    ensures
        total(g) >= g.len(),
    decreases g.len(),
{
    if g.len() > 0 {
        assert forall|k: int| 0 <= k < g.drop_last().len() implies 1 <= #[trigger] g.drop_last()[k] by {
            assert(g.drop_last()[k] == g[k]);
        }
        lemma_total_positive(g.drop_last());
        assert(g.last() == g[g.len() - 1]);
    }
}

} // verus!
