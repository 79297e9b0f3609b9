//! What the screens decide around a write: how many projects the session of
//! a just-booked entry spans and what that session loses to the break, and
//! which days marking a range of days touches.
use crate::balance::{is_working_day, working_day};
use crate::breaks::{
    BreakTier, deduction, entry_nets, minutes_seq, nets_of, entry_intervals, intervals_of, lemma_merged_bounds, lemma_sort_tags,
    lemma_tagged_tags, session_members, sessions_of, sort_by_start, tagged, tier_deduction,
};
use crate::date::{Date, in_range};
use crate::minutes::{HoursFormat, Minutes, signed_text};
use crate::report::{clock_text, int_decimal};
use crate::text::{push_str, push_char};
use crate::types::{Day, DayKind, Entry};
use vstd::prelude::*;

verus! {

/// The members of the first session of `m` that holds the entry with id
/// `id`; none when no session does.
pub open spec fn session_of(m: Seq<(int, int, Seq<usize>)>, e: Seq<Entry>, id: i64) -> Seq<usize>
    decreases m.len(),
{
    if m.len() == 0 {
        Seq::empty()
    } else if exists|j: int| 0 <= j < m[0].2.len() && #[trigger] e[m[0].2[j] as int].id == id {
        m[0].2
    } else {
        session_of(m.drop_first(), e, id)
    }
}

/// The earliest start among the entries at positions `g`.
pub open spec fn min_start(e: Seq<Entry>, g: Seq<usize>) -> int
    decreases g.len(),
{
    if g.len() == 0 {
        0
    } else if g.len() == 1 {
        e[g[0] as int].iv().0
    } else {
        let r = min_start(e, g.drop_last());
        let x = e[g.last() as int].iv().0;
        if x < r {
            x
        } else {
            r
        }
    }
}

/// The latest end among the entries at positions `g`.
pub open spec fn max_end(e: Seq<Entry>, g: Seq<usize>) -> int
    decreases g.len(),
{
    if g.len() == 0 {
        0
    } else if g.len() == 1 {
        e[g[0] as int].iv().1
    } else {
        let r = max_end(e, g.drop_last());
        let x = e[g.last() as int].iv().1;
        if x > r {
            x
        } else {
            r
        }
    }
}

/// How many different names `ns` holds.
pub open spec fn distinct_names(ns: Seq<Seq<char>>) -> int
    decreases ns.len(),
{
    if ns.len() == 0 {
        0
    } else {
        distinct_names(ns.drop_last()) + if ns.drop_last().contains(ns.last()) {
            0int
        } else {
            1
        }
    }
}

/// The projects of the entries at positions `g`.
pub open spec fn names_at(e: Seq<Entry>, g: Seq<usize>) -> Seq<Seq<char>> {
    Seq::new(g.len(), |j: int| e[g[j] as int].project@)
}

/// The session of the entry with id `entry_id` in the day's entries: how
/// many different projects it spans, and what its length loses to the
/// break.
pub fn session_summary(day: &[Entry], entry_id: i64, tiers: &[BreakTier]) -> (r: (usize, Minutes))
    ensures
        ({
            let g = session_of(sessions_of(entry_intervals(day@)), day@, entry_id);
            &&& r.0 == distinct_names(names_at(day@, g))
            &&& r.1.0 == tier_deduction(tiers@, max_end(day@, g) - min_start(day@, g))
        }),
{
    let intervals = intervals_of(day);
    let members = session_members(intervals.as_slice());
    let ghost m = sessions_of(entry_intervals(day@));
    let n = day.len();
    proof {
        lemma_tagged_tags(intervals@);
        lemma_sort_tags(tagged(intervals@), n as int);
        lemma_merged_bounds(sort_by_start(tagged(intervals@)), 0, 0, n as int);
    }
    let mut k: usize = 0;
    let mut found: Option<usize> = None;
    proof {
        assert(m.skip(0) =~= m);
    }
    while k < members.len() && found.is_none()
        invariant
            k <= members@.len() == m.len(),
            n == day@.len(),
            intervals@ == entry_intervals(day@),
            m == sessions_of(entry_intervals(day@)),
            forall|q: int| 0 <= q < members@.len() ==> (#[trigger] members@[q])@ == m[q].2,
            forall|q: int, j: int|
                0 <= q < m.len() && 0 <= j < m[q].2.len() ==> #[trigger] m[q].2[j] < n,
            found is None ==> session_of(m, day@, entry_id) == session_of(m.skip(k as int), day@, entry_id),
            found matches Some(q) ==> q < m.len() && session_of(m, day@, entry_id) == m[q as int].2,
        decreases members.len() - k + (if found is None { 1int } else { 0int }),
    {
        let g = &members[k];
        let mut j: usize = 0;
        let mut hit = false;
        while j < g.len() && !hit
            invariant
                j <= g@.len(),
                k < m.len(),
                n == day@.len(),
                g@ == m[k as int].2,
                forall|q: int, j: int|
                    0 <= q < m.len() && 0 <= j < m[q].2.len() ==> #[trigger] m[q].2[j] < n,
                hit == exists|i: int| 0 <= i < j && #[trigger] day@[g@[i] as int].id == entry_id,
            decreases g.len() - j,
        {
            proof {
                assert(g@[j as int] == m[k as int].2[j as int]);
            }
            if day[g[j]].id == entry_id {
                hit = true;
            }
            j += 1;
        }
        proof {
            let t = m.skip(k as int);
            assert(t[0] == m[k as int]);
            assert(t.drop_first() =~= m.skip(k + 1));
            if !hit {
                assert(!exists|i: int| 0 <= i < t[0].2.len() && #[trigger] day@[t[0].2[i] as int].id
                    == entry_id);
            } else {
                let i = choose|i: int| 0 <= i < j && #[trigger] day@[g@[i] as int].id == entry_id;
                assert(day@[t[0].2[i] as int].id == entry_id);
            }
        }
        if hit {
            found = Some(k);
        } else {
            k += 1;
        }
    }
    let empty: Vec<usize> = Vec::new();
    let g: &Vec<usize> = match found {
        Some(q) => &members[q],
        None => {
            proof {
                assert(m.skip(m.len() as int) =~= Seq::<(int, int, Seq<usize>)>::empty());
            }
            &empty
        },
    };
    let ghost gs = session_of(m, day@, entry_id);
    assert(g@ == gs);
    let mut lo: i32 = 0;
    let mut hi: i32 = 0;
    let mut i: usize = 0;
    proof {
        crate::breaks::lemma_sane_within(day@);
    }
    while i < g.len()
        invariant
            i <= g@.len(),
            n == day@.len(),
            intervals@ == entry_intervals(day@),
            forall|j: int| 0 <= j < g@.len() ==> #[trigger] g@[j] < n,
            crate::breaks::entries_sane(day@),
            lo == min_start(day@, g@.take(i as int)),
            hi == max_end(day@, g@.take(i as int)),
            0 <= lo <= 2880,
            0 <= hi <= 2880,
        decreases g.len() - i,
    {
        let (s, e) = intervals[g[i]];
        proof {
            assert(g@.take(i + 1).drop_last() =~= g@.take(i as int));
            assert(g@.take(i + 1).last() == g@[i as int]);
            assert(entry_intervals(day@)[g@[i as int] as int] == (s, e));
            assert(0 <= day@[g@[i as int] as int].iv().0 < 1440);
            if i == 0 {
                assert(g@.take(1)[0] == g@[0]);
            }
        }
        if i == 0 || s < lo {
            lo = s;
        }
        if i == 0 || e > hi {
            hi = e;
        }
        i += 1;
    }
    proof {
        assert(g@.take(g@.len() as int) =~= g@);
    }
    let loss = deduction(Minutes(hi - lo), tiers);
    let mut count: usize = 0;
    let mut a: usize = 0;
    let ghost names = names_at(day@, g@);
    proof {
        assert(names.take(0) =~= Seq::<Seq<char>>::empty());
    }
    while a < g.len()
        invariant
            a <= g@.len(),
            n == day@.len(),
            names == names_at(day@, g@),
            forall|j: int| 0 <= j < g@.len() ==> #[trigger] g@[j] < n,
            count == distinct_names(names.take(a as int)),
            count <= a,
        decreases g.len() - a,
    {
        let mut b: usize = 0;
        let mut seen = false;
        while b < a && !seen
            invariant
                b <= a < g@.len(),
                n == day@.len(),
                names == names_at(day@, g@),
                forall|j: int| 0 <= j < g@.len() ==> #[trigger] g@[j] < n,
                seen == exists|c: int| 0 <= c < b && names[c] == names[a as int],
            decreases a - b,
        {
            proof {
                assert(names[b as int] == day@[g@[b as int] as int].project@);
                assert(names[a as int] == day@[g@[a as int] as int].project@);
            }
            if day[g[b]].project == day[g[a]].project {
                seen = true;
            }
            b += 1;
        }
        proof {
            let t = names.take(a + 1);
            assert(t.drop_last() =~= names.take(a as int));
            assert(t.last() == names[a as int]);
            if seen {
                let c = choose|c: int| 0 <= c < b && names[c] == names[a as int];
                assert(t.drop_last()[c] == names[a as int]);
            } else {
                assert forall|c: int| 0 <= c < a implies names.take(a as int)[c] != names[a as int] by {
                    if c >= b {
                        assert(b == a);
                    }
                }
            }
        }
        if !seen {
            count += 1;
        }
        a += 1;
    }
    proof {
        assert(names.take(g@.len() as int) =~= names);
    }
    (count, loss)
}

/// The weekdays (Monday to Friday) from `from` to `to`, by day number.
pub open spec fn weekdays_between(from: int, to: int) -> Seq<int>
    decreases to - from + 1,
{
    if to < from {
        Seq::empty()
    } else if working_day(to) {
        weekdays_between(from, to - 1).push(to)
    } else {
        weekdays_between(from, to - 1)
    }
}

/// The weekdays from `from` to `to` that marking that range sets: none is
/// an error, as is, for any kind but work, a weekday that has entries, as
/// the whole range is refused rather than half marked. Each error names
/// what went wrong: `Err(None)` when there are no weekdays, `Err(Some(d))`
/// for the first day of `days` (the stored days of the range) that is a
/// weekday in the range and has entries.
pub open spec fn range_plan(
    from: Date,
    to: Date,
    kind_is_work: bool,
    days: Seq<Day>,
) -> Result<Seq<int>, Option<Date>> {
    let w = weekdays_between(from.num(), to.num());
    if w.len() == 0 {
        Err(None)
    } else if !kind_is_work && exists|k: int| 0 <= k < days.len() && blocks(#[trigger] days[k], from, to) {
        Err(Some(days[first_block(days, from, to)].date))
    } else {
        Ok(w)
    }
}

/// A stored day that stops a range being marked: a weekday in the range
/// with entries.
pub open spec fn blocks(d: Day, from: Date, to: Date) -> bool {
    from.num() <= d.date.num() <= to.num() && working_day(d.date.num()) && d.entries@.len() > 0
}

/// The first day of `days` that blocks the range.
pub open spec fn first_block(days: Seq<Day>, from: Date, to: Date) -> int
    decreases days.len(),
{
    if days.len() == 0 {
        0
    } else if blocks(days[0], from, to) {
        0
    } else {
        1 + first_block(days.drop_first(), from, to)
    }
}

/// The weekdays marking `from..=to` as `kind` sets, or why it is refused.
pub fn kind_range(from: Date, to: Date, kind: &DayKind, days: &[Day]) -> (r: Result<Vec<Date>, Option<Date>>)
    ensures
        ({
            let plan = range_plan(from, to, kind@.0 == 0, days@);
            &&& (r is Ok <==> plan is Ok)
            &&& (r matches Ok(v) ==> plan matches Ok(w) && v@.len() == w.len() && forall|i: int|
                0 <= i < v@.len() ==> (#[trigger] v@[i]).num() == w[i])
            &&& (r matches Err(e) ==> plan == Err::<Seq<int>, Option<Date>>(e))
        }),
{
    let mut out: Vec<Date> = Vec::new();
    let mut d = from;
    let mut more = from.not_after(&to);
    proof {
        assert(weekdays_between(from.num(), from.num() - 1) =~= Seq::<int>::empty());
    }
    while more
        invariant
            more ==> d.num() <= to.num(),
            more ==> out@.len() == weekdays_between(from.num(), d.num() - 1).len() && forall|i: int|
                0 <= i < out@.len() ==> (#[trigger] out@[i]).num() == weekdays_between(from.num(), d.num() - 1)[i],
            !more ==> out@.len() == weekdays_between(from.num(), to.num()).len() && forall|i: int|
                0 <= i < out@.len() ==> (#[trigger] out@[i]).num() == weekdays_between(from.num(), to.num())[i],
            from.num() <= d.num(),
        decreases to.num() - d.num() + (if more { 1int } else { 0int }),
    {
        let ghost before = out@;
        if is_working_day(d) {
            out.push(d);
        }
        proof {
            assert(weekdays_between(from.num(), d.num()) == if working_day(d.num()) {
                weekdays_between(from.num(), d.num() - 1).push(d.num())
            } else {
                weekdays_between(from.num(), d.num() - 1)
            });
        }
        if d.same(&to) {
            more = false;
        } else {
            d.valid();
            to.valid();
            proof {
                crate::stats::lemma_date_in_range(to);
                crate::stats::lemma_date_in_range(d);
            }
            d = d.succ_opt().unwrap();
        }
    }
    if out.len() == 0 {
        return Err(None);
    }
    if !kind.is_work() {
        let mut k: usize = 0;
        proof {
            assert(days@.skip(0) =~= days@);
        }
        while k < days.len()
            invariant
                k <= days@.len(),
                first_block(days@, from, to) == k + first_block(days@.skip(k as int), from, to),
                forall|j: int| 0 <= j < k ==> !blocks(#[trigger] days@[j], from, to),
                weekdays_between(from.num(), to.num()).len() > 0,
                kind@.0 != 0,
            decreases days.len() - k,
        {
            let day = &days[k];
            if from.not_after(&day.date) && day.date.not_after(&to) && is_working_day(day.date)
                && day.entries.len() > 0 {
                proof {
                    assert(days@.skip(k as int)[0] == days@[k as int]);
                }
                return Err(Some(day.date));
            }
            proof {
                assert(days@.skip(k as int)[0] == days@[k as int]);
                assert(days@.skip(k as int).drop_first() =~= days@.skip(k + 1));
            }
            k += 1;
        }
    }
    Ok(out)
}

/// Whether the session of entry `id` loses something to the break, over
/// more than one project.
pub open spec fn split_worth(e: Seq<Entry>, id: i64, t: Seq<BreakTier>) -> bool {
    let g = session_of(sessions_of(entry_intervals(e)), e, id);
    tier_deduction(t, max_end(e, g) - min_start(e, g)) != 0 && distinct_names(names_at(e, g)) > 1
}

/// Whether it is worth asking how the break of the session of entry
/// `entry_id` is split: the session loses something, over more than one
/// project.
pub fn split_is_worth_offering(entries: &[Entry], entry_id: i64, tiers: &[BreakTier]) -> (r: bool)
    ensures
        r == split_worth(entries@, entry_id, tiers@),
{
    let (n, d) = session_summary(entries, entry_id, tiers);
    d.0 != 0 && n > 1
}

/// One box of the break split: the entry, its label, the share it has and
/// what the default rule would charge it.
#[derive(Debug, Clone, PartialEq, Eq)]
pub struct SplitField {
    pub entry_id: i64,
    pub label: String,
    pub value: String,
    pub placeholder: String,
}

/// Why the break split of a session is not offered.
#[derive(Debug, Clone, Copy, PartialEq, Eq, Structural)]
pub enum SplitRefusal {
    /// The entry is not among the day's any more.
    Gone,
    /// The session loses nothing to the break.
    TooShort,
    /// The session has one entry, which carries the whole break.
    Single,
}

impl SplitRefusal {
    /// The status line a refusal is shown with, and whether it is an error.
    pub fn message(self) -> (r: (&'static str, bool))
        ensures
            r.0@ == match self {
                SplitRefusal::Gone => "That entry is not on screen any more"@,
                SplitRefusal::TooShort => "This session is too short to lose a break"@,
                SplitRefusal::Single => "One entry in this session: the whole break is on it"@,
            },
            r.1 == (self == SplitRefusal::Gone),
    {
        match self {
            SplitRefusal::Gone => ("That entry is not on screen any more", true),
            SplitRefusal::TooShort => ("This session is too short to lose a break", false),
            SplitRefusal::Single => ("One entry in this session: the whole break is on it", false),
        }
    }
}

/// What the break split of a session offers: a box per entry, the
/// session's deduction, and each entry's gross.
pub struct SplitPlan {
    pub fields: Vec<SplitField>,
    pub deduction: Minutes,
    pub grosses: Vec<Minutes>,
}

/// An entry's label in the split: its times, its project and its gross.
pub open spec fn split_label(e: Entry, f: HoursFormat) -> Seq<char> {
    clock_text(e.start) + "–"@ + clock_text(e.end) + "  "@ + e.project@ + "  ("@ + signed_text(e.len(), f)
        + ")"@
}

/// The entries at positions `g`, with no share given by hand.
pub open spec fn unassigned(e: Seq<Entry>, g: Seq<usize>) -> Seq<Entry> {
    Seq::new(
        g.len(),
        |k: int|
            Entry {
                id: e[g[k] as int].id,
                date: e[g[k] as int].date,
                start: e[g[k] as int].start,
                end: e[g[k] as int].end,
                project: e[g[k] as int].project,
                comment: e[g[k] as int].comment,
                break_share: None,
            },
    )
}

/// The box of the `k`-th entry of session `g`.
pub open spec fn split_field(e: Seq<Entry>, g: Seq<usize>, k: int, t: Seq<BreakTier>, f: HoursFormat) -> (
    int,
    Seq<char>,
    Seq<char>,
    Seq<char>,
) {
    let x = e[g[k] as int];
    (
        x.id as int,
        split_label(x, f),
        match x.break_share {
            Some(m) => int_decimal(m.0 as int),
            None => Seq::empty(),
        },
        int_decimal(x.len() - nets_of(unassigned(e, g), t)[k]),
    )
}

pub open spec fn field_view(v: SplitField) -> (int, Seq<char>, Seq<char>, Seq<char>) {
    (v.entry_id as int, v.label@, v.value@, v.placeholder@)
}

fn push_i64(s: &mut String, v: i64)
    ensures
        final(s)@ == old(s)@ + int_decimal(v as int),
{
    if v < 0 {
        push_char(s, '-');
        proof {
            assert(v > i64::MIN || v == i64::MIN);
        }
        let m: u64 = if v == i64::MIN {
            0x8000_0000_0000_0000
        } else {
            (0 - v) as u64
        };
        crate::text::push_decimal(s, m);
        proof {
            assert(final(s)@ =~= old(s)@ + int_decimal(v as int));
        }
    } else {
        crate::text::push_decimal(s, v as u64);
    }
}

/// Each box of `p` is the one of its entry of the session of entry `id`,
/// with that entry's gross.
pub open spec fn boxes_match(p: SplitPlan, e: Seq<Entry>, id: i64, t: Seq<BreakTier>, f: HoursFormat) -> bool {
    forall|k: int|
        0 <= k < entry_session(e, id).len() ==> field_view(#[trigger] p.fields@[k]) == split_field(
            e,
            entry_session(e, id),
            k,
            t,
            f,
        ) && p.grosses@[k].0 == e[entry_session(e, id)[k] as int].len()
}

/// The positions of the entries of the session that holds entry `id`.
pub open spec fn entry_session(e: Seq<Entry>, id: i64) -> Seq<usize> {
    session_of(sessions_of(entry_intervals(e)), e, id)
}

/// What that session loses to the break.
pub open spec fn session_loss(e: Seq<Entry>, id: i64, t: Seq<BreakTier>) -> int {
    let g = entry_session(e, id);
    tier_deduction(t, max_end(e, g) - min_start(e, g))
}

/// The break split of the session that holds entry `entry_id`, or why it is
/// not offered: the entry is gone, the session loses nothing, or it has a
/// single entry.
#[verifier::spinoff_prover]
pub fn break_split_plan(entries: &[Entry], entry_id: i64, tiers: &[BreakTier], f: HoursFormat) -> (r:
    Result<SplitPlan, SplitRefusal>)
    ensures
        r == Err::<SplitPlan, SplitRefusal>(SplitRefusal::Gone) <==> entry_session(entries@, entry_id).len()
            == 0,
        r == Err::<SplitPlan, SplitRefusal>(SplitRefusal::TooShort) <==> entry_session(entries@, entry_id).len()
            > 0 && session_loss(entries@, entry_id, tiers@) == 0,
        r == Err::<SplitPlan, SplitRefusal>(SplitRefusal::Single) <==> entry_session(entries@, entry_id).len()
            == 1 && session_loss(entries@, entry_id, tiers@) != 0,
        r is Ok <==> entry_session(entries@, entry_id).len() >= 2 && session_loss(entries@, entry_id, tiers@)
            != 0,
        r matches Ok(p) ==> p.deduction.0 == session_loss(entries@, entry_id, tiers@) && p.fields@.len()
            == entry_session(entries@, entry_id).len() && p.grosses@.len() == entry_session(
            entries@,
            entry_id,
        ).len(),
        r matches Ok(p) ==> boxes_match(p, entries@, entry_id, tiers@, f),
{
    let intervals = intervals_of(entries);
    let members = session_members(intervals.as_slice());
    let ghost m = sessions_of(entry_intervals(entries@));
    let n = entries.len();
    proof {
        lemma_tagged_tags(intervals@);
        lemma_sort_tags(tagged(intervals@), n as int);
        lemma_merged_bounds(sort_by_start(tagged(intervals@)), 0, 0, n as int);
        crate::breaks::lemma_sane_within(entries@);
    }
    let (_, ded) = session_summary(entries, entry_id, tiers);
    let mut k: usize = 0;
    let mut found: Option<usize> = None;
    proof {
        assert(m.skip(0) =~= m);
    }
    while k < members.len() && found.is_none()
        invariant
            k <= members@.len() == m.len(),
            n == entries@.len(),
            m == sessions_of(entry_intervals(entries@)),
            forall|q: int| 0 <= q < members@.len() ==> (#[trigger] members@[q])@ == m[q].2,
            forall|q: int, j: int|
                0 <= q < m.len() && 0 <= j < m[q].2.len() ==> #[trigger] m[q].2[j] < n,
            found is None ==> session_of(m, entries@, entry_id) == session_of(m.skip(k as int), entries@, entry_id),
            found matches Some(q) ==> q < m.len() && session_of(m, entries@, entry_id) == m[q as int].2
                && exists|j: int| 0 <= j < m[q as int].2.len() && #[trigger] entries@[m[q as int].2[j] as int].id == entry_id,
        decreases members.len() - k + (if found is None { 1int } else { 0int }),
    {
        let g = &members[k];
        let mut j: usize = 0;
        let mut hit = false;
        while j < g.len() && !hit
            invariant
                j <= g@.len(),
                k < m.len(),
                n == entries@.len(),
                g@ == m[k as int].2,
                forall|q: int, j: int|
                    0 <= q < m.len() && 0 <= j < m[q].2.len() ==> #[trigger] m[q].2[j] < n,
                hit == exists|i: int| 0 <= i < j && #[trigger] entries@[g@[i] as int].id == entry_id,
            decreases g.len() - j,
        {
            proof {
                assert(g@[j as int] == m[k as int].2[j as int]);
            }
            if entries[g[j]].id == entry_id {
                hit = true;
            }
            j += 1;
        }
        proof {
            let t = m.skip(k as int);
            assert(t[0] == m[k as int]);
            assert(t.drop_first() =~= m.skip(k + 1));
            if hit {
                let i = choose|i: int| 0 <= i < j && #[trigger] entries@[g@[i] as int].id == entry_id;
                assert(entries@[t[0].2[i] as int].id == entry_id);
            }
        }
        if hit {
            found = Some(k);
        } else {
            k += 1;
        }
    }
    let q = match found {
        Some(q) => q,
        None => {
            proof {
                assert(m.skip(m.len() as int) =~= Seq::<(int, int, Seq<usize>)>::empty());
            }
            return Err(SplitRefusal::Gone);
        },
    };
    let g = &members[q];
    let ghost gs = session_of(m, entries@, entry_id);
    assert(g@ == gs);
    proof {
        assert(m[q as int].2.len() > 0);
    }
    if ded.0 == 0 {
        return Err(SplitRefusal::TooShort);
    }
    if g.len() < 2 {
        return Err(SplitRefusal::Single);
    }
    let mut session: Vec<Entry> = Vec::new();
    let mut i: usize = 0;
    while i < g.len()
        invariant
            i <= g@.len(),
            n == entries@.len(),
            forall|j: int| 0 <= j < g@.len() ==> #[trigger] g@[j] < n,
            session@ == unassigned(entries@, g@).take(i as int),
        decreases g.len() - i,
    {
        let e = &entries[g[i]];
        session.push(
            Entry {
                id: e.id,
                date: e.date,
                start: e.start,
                end: e.end,
                project: e.project.clone(),
                comment: e.comment.clone(),
                break_share: None,
            },
        );
        i += 1;
        proof {
            assert(session@ =~= unassigned(entries@, g@).take(i as int));
        }
    }
    proof {
        assert(unassigned(entries@, g@).take(g@.len() as int) =~= unassigned(entries@, g@));
    }
    let nets = entry_nets(session.as_slice(), tiers);
    proof {
        crate::sharing::lemma_nets_bounds(session@, tiers@);
    }
    let mut fields: Vec<SplitField> = Vec::new();
    let mut grosses: Vec<Minutes> = Vec::new();
    let mut k2: usize = 0;
    while k2 < g.len()
        invariant
            k2 <= g@.len(),
            n == entries@.len(),
            forall|j: int| 0 <= j < g@.len() ==> #[trigger] g@[j] < n,
            session@ == unassigned(entries@, g@),
            nets@.len() == session@.len() == g@.len(),
            minutes_seq(nets@) == nets_of(session@, tiers@),
            fields@.len() == k2,
            grosses@.len() == k2,
            forall|j: int|
                0 <= j < k2 ==> field_view(#[trigger] fields@[j]) == split_field(entries@, g@, j, tiers@, f)
                    && grosses@[j].0 == entries@[g@[j] as int].len(),
        decreases g.len() - k2,
    {
        let e = &entries[g[k2]];
        let dur = e.duration();
        let mut label = String::new();
        push_str(&mut label, crate::report::clock_string(e.start).as_str());
        push_str(&mut label, "–");
        push_str(&mut label, crate::report::clock_string(e.end).as_str());
        push_str(&mut label, "  ");
        push_str(&mut label, e.project.as_str());
        push_str(&mut label, "  (");
        push_str(&mut label, dur.fmt_signed(f).as_str());
        push_str(&mut label, ")");
        let mut value = String::new();
        match e.break_share {
            Some(mm) => push_i64(&mut value, mm.0 as i64),
            None => {},
        }
        let mut placeholder = String::new();
        proof {
            assert(minutes_seq(nets@)[k2 as int] == nets@[k2 as int].0);
        }
        push_i64(&mut placeholder, dur.0 as i64 - nets[k2].0 as i64);
        let field = SplitField { entry_id: e.id, label, value, placeholder };
        proof {
            assert(field_view(field) == split_field(entries@, g@, k2 as int, tiers@, f)) by {
                assert(label@ =~= split_label(entries@[g@[k2 as int] as int], f));
                assert(value@ =~= match entries@[g@[k2 as int] as int].break_share {
                    Some(mm) => int_decimal(mm.0 as int),
                    None => Seq::empty(),
                });
            }
        }
        let ghost fv = fields@;
        let ghost gv = grosses@;
        fields.push(field);
        grosses.push(dur);
        proof {
            assert forall|j: int| 0 <= j < k2 + 1 implies field_view(#[trigger] fields@[j]) == split_field(entries@, g@, j, tiers@, f)
                && grosses@[j].0 == entries@[g@[j] as int].len() by {
                if j < k2 {
                    assert(fields@[j] == fv[j]);
                    assert(grosses@[j] == gv[j]);
                }
            }
        }
        k2 += 1;
    }
    proof {
        assert(g@ == gs);
        assert(fields@.len() == gs.len());
        assert(ded.0 == tier_deduction(tiers@, max_end(entries@, gs) - min_start(entries@, gs)));
        assert(gs.len() >= 2);
        assert(forall|k: int|
            0 <= k < gs.len() ==> field_view(#[trigger] fields@[k]) == split_field(entries@, gs, k, tiers@, f)
                && grosses@[k].0 == entries@[gs[k] as int].len());
    }
    let plan = SplitPlan { fields, deduction: ded, grosses };
    proof {
        assert(gs == entry_session(entries@, entry_id));
        assert forall|k: int| 0 <= k < entry_session(entries@, entry_id).len() implies field_view(
            #[trigger] plan.fields@[k],
        ) == split_field(entries@, entry_session(entries@, entry_id), k, tiers@, f) && plan.grosses@[k].0
            == entries@[entry_session(entries@, entry_id)[k] as int].len() by {
            assert(plan.fields@[k] == fields@[k]);
        }
        assert(boxes_match(plan, entries@, entry_id, tiers@, f));
    }
    Ok(plan)
}

} // verus!
