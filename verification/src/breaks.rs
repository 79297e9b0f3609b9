//! Statutory breaks: the tiers, the sessions a day falls into, what each
//! session loses, and how that loss is shared out over its entries.
use crate::minutes::Minutes;
use crate::types::Entry;
use vstd::prelude::*;

verus! {

/// After `after` minutes of work, `deduct` minutes are taken off.
#[derive(Clone, Copy, Debug, PartialEq, Eq, Structural)]
pub struct BreakTier {
    pub after: Minutes,
    pub deduct: Minutes,
}

/// 18 minutes after three hours, 48 after six.
pub fn default_tiers() -> (r: Vec<BreakTier>)
    ensures
        r@ == seq![
            (BreakTier { after: Minutes(180), deduct: Minutes(18) }),
            (BreakTier { after: Minutes(360), deduct: Minutes(48) }),
        ],
{
    let mut r = Vec::new();
    r.push(BreakTier { after: Minutes(180), deduct: Minutes(18) });
    r.push(BreakTier { after: Minutes(360), deduct: Minutes(48) });
    r
}

/// The tier that applies to `gross` minutes: of those whose `after` is
/// strictly below `gross`, one with the largest `after`, the last one where
/// several share it.
pub open spec fn pick(t: Seq<BreakTier>, gross: int) -> Option<int>
    decreases t.len(),
{
    if t.len() == 0 {
        None
    } else {
        let k = t.len() - 1;
        let rest = pick(t.drop_last(), gross);
        if t[k].after.0 < gross {
            match rest {
                Some(j) => if t[j].after.0 <= t[k].after.0 {
                    Some(k)
                } else {
                    Some(j)
                },
                None => Some(k),
            }
        } else {
            rest
        }
    }
}

/// What `gross` minutes lose: the deduction of the tier that applies, or
/// nothing.
pub open spec fn tier_deduction(t: Seq<BreakTier>, gross: int) -> int {
    match pick(t, gross) {
        Some(k) => t[k].deduct.0 as int,
        None => 0,
    }
}

/// Whether no tier deducts a negative amount, as a checked configuration
/// guarantees.
pub open spec fn tiers_sane(t: Seq<BreakTier>) -> bool {
    forall|k: int| 0 <= k < t.len() ==> 0 <= #[trigger] t[k].deduct.0
}

/// Sane tiers never deduct a negative amount.
pub proof fn lemma_tier_deduction_nonneg(t: Seq<BreakTier>, gross: int)
    requires
        tiers_sane(t),
    ensures
        0 <= tier_deduction(t, gross),
{
    lemma_pick(t, gross);
    if let Some(k) = pick(t, gross) {
        assert(0 <= t[k].deduct.0);
    }
}

/// A tier applies exactly when some tier lies strictly below `gross`, and the
/// one that applies has the largest `after` strictly below `gross`, no later
/// tier sharing it.
pub proof fn lemma_pick(t: Seq<BreakTier>, gross: int)
    ensures
        pick(t, gross) is None <==> (forall|i: int| 0 <= i < t.len() ==> t[i].after.0 >= gross),
        pick(t, gross) matches Some(k) ==> {
            &&& 0 <= k < t.len()
            &&& t[k].after.0 < gross
            &&& forall|i: int|
                0 <= i < t.len() && t[i].after.0 < gross ==> t[i].after.0 <= t[k].after.0
            &&& forall|i: int|
                k < i < t.len() && t[i].after.0 < gross ==> t[i].after.0 < t[k].after.0
        },
    decreases t.len(),
{
    if t.len() > 0 {
        let k = t.len() - 1;
        lemma_pick(t.drop_last(), gross);
        assert forall|i: int| 0 <= i < k implies t.drop_last()[i] == t[i] by {}
        if pick(t.drop_last(), gross) is None && t[k].after.0 >= gross {
            assert forall|i: int| 0 <= i < t.len() implies t[i].after.0 >= gross by {
                if i < k {
                    assert(t.drop_last()[i] == t[i]);
                }
            }
        }
    }
}

/// Deduction of the tier with the largest `after` that is strictly below
/// `gross`; nothing when no tier is below it.
pub fn deduction(gross: Minutes, tiers: &[BreakTier]) -> (r: Minutes)
    ensures
        r.0 == tier_deduction(tiers@, gross.0 as int),
{
    let mut best: Option<usize> = None;
    let mut i: usize = 0;
    while i < tiers.len()
        invariant
            i <= tiers.len(),
            best == (match pick(tiers@.take(i as int), gross.0 as int) {
                Some(k) => Some(k as usize),
                None => None::<usize>,
            }),
            pick(tiers@.take(i as int), gross.0 as int) matches Some(k) ==> 0 <= k < i,
        decreases tiers.len() - i,
    {
        proof {
            lemma_pick(tiers@.take(i as int), gross.0 as int);
            assert(tiers@.take(i + 1).drop_last() =~= tiers@.take(i as int));
        }
        let t = tiers[i];
        if t.after.0 < gross.0 {
            match best {
                Some(j) => {
                    if tiers[j].after.0 <= t.after.0 {
                        best = Some(i);
                    }
                },
                None => {
                    best = Some(i);
                },
            }
        }
        i += 1;
    }
    proof {
        assert(tiers@.take(tiers@.len() as int) =~= tiers@);
    }
    match best {
        Some(k) => tiers[k].deduct,
        None => Minutes(0),
    }
}

/// The break deduction of a whole day: none once the day's recorded pauses
/// reach `break_gap`, the tier deduction for `gross` otherwise.
///
/// A recorded pause is the user's own break, so nothing is taken off; a
/// `break_gap` of 0 switches the automatic deduction off altogether.
pub fn day_deduction(gross: Minutes, gaps: Minutes, tiers: &[BreakTier], break_gap: Minutes) -> (r:
    Minutes)
    ensures
        r.0 == (if gaps.0 >= break_gap.0 {
            0
        } else {
            tier_deduction(tiers@, gross.0 as int)
        }),
{
    if gaps.0 >= break_gap.0 {
        Minutes(0)
    } else {
        deduction(gross, tiers)
    }
}

// ---------------------------------------------------------------------------
// Intervals in clock order
// ---------------------------------------------------------------------------

/// An interval with the position it had in the caller's list.
pub open spec fn tagged(iv: Seq<(i32, i32)>) -> Seq<(i32, i32, usize)> {
    Seq::new(iv.len(), |k: int| (iv[k].0, iv[k].1, k as usize))
}

/// `x` put into `t` behind every interval that does not start later.
pub open spec fn insert_by_start(t: Seq<(i32, i32, usize)>, x: (i32, i32, usize)) -> Seq<
    (i32, i32, usize),
>
    decreases t.len(),
{
    if t.len() == 0 {
        seq![x]
    } else if t.last().0 <= x.0 {
        t.push(x)
    } else {
        insert_by_start(t.drop_last(), x).push(t.last())
    }
}

/// `s` sorted by start, intervals with the same start in their old order: a
/// stable sort.
pub open spec fn sort_by_start(s: Seq<(i32, i32, usize)>) -> Seq<(i32, i32, usize)>
    decreases s.len(),
{
    if s.len() == 0 {
        s
    } else {
        insert_by_start(sort_by_start(s.drop_last()), s.last())
    }
}

pub open spec fn sorted_by_start(t: Seq<(i32, i32, usize)>) -> bool {
    forall|i: int, j: int| 0 <= i <= j < t.len() ==> t[i].0 <= t[j].0
}

/// Every interval of `t` starts at `lo` or later, ends at `hi` or earlier and
/// does not end before it starts.
pub open spec fn all_within(t: Seq<(i32, i32, usize)>, lo: int, hi: int) -> bool {
    forall|k: int| 0 <= k < t.len() ==> lo <= #[trigger] t[k].0 <= t[k].1 <= hi
}

proof fn lemma_insert_at(t: Seq<(i32, i32, usize)>, x: (i32, i32, usize), p: int)
    requires
        0 <= p <= t.len(),
        forall|j: int| p <= j < t.len() ==> t[j].0 > x.0,
        p > 0 ==> t[p - 1].0 <= x.0,
    ensures
        insert_by_start(t, x) == t.insert(p, x),
    decreases t.len() - p,
{
    if p < t.len() {
        let u = t.drop_last();
        assert forall|j: int| p <= j < u.len() implies u[j].0 > x.0 by {
            assert(u[j] == t[j]);
        }
        if p > 0 {
            assert(u[p - 1] == t[p - 1]);
        }
        lemma_insert_at(u, x, p);
        assert(u.insert(p, x).push(t.last()) =~= t.insert(p, x));
    } else {
        if t.len() > 0 {
            assert(t.last() == t[p - 1]);
        }
        assert(t.push(x) =~= t.insert(p, x));
    }
}

/// Insertion keeps the length, the order by start, and every bound the
/// intervals satisfy.
proof fn lemma_insert_props(t: Seq<(i32, i32, usize)>, x: (i32, i32, usize), lo: int, hi: int)
    ensures
        insert_by_start(t, x).len() == t.len() + 1,
        sorted_by_start(t) ==> sorted_by_start(insert_by_start(t, x)),
        all_within(t, lo, hi) && lo <= x.0 <= x.1 <= hi ==> all_within(insert_by_start(t, x), lo, hi),
    decreases t.len(),
{
    if t.len() > 0 && t.last().0 > x.0 {
        let u = t.drop_last();
        lemma_insert_props(u, x, lo, hi);
        let r = insert_by_start(u, x);
        if sorted_by_start(t) {
            assert(sorted_by_start(u)) by {
                assert forall|i: int, j: int| 0 <= i <= j < u.len() implies u[i].0 <= u[j].0 by {
                    assert(u[i] == t[i] && u[j] == t[j]);
                }
            }
            // every element of r is an element of u or x, all starting no later than t.last()
            assert forall|i: int| 0 <= i < r.len() implies r[i].0 <= t.last().0 by {
                lemma_insert_elements(u, x, i);
                if r[i] != x {
                    let j = choose|j: int| 0 <= j < u.len() && u[j] == r[i];
                    assert(u[j] == t[j]);
                }
            }
        }
        if all_within(t, lo, hi) && lo <= x.0 <= x.1 <= hi {
            assert forall|k: int| 0 <= k < u.len() implies lo <= #[trigger] u[k].0 <= u[k].1 <= hi by {
                assert(u[k] == t[k]);
            }
        }
    } else if t.len() > 0 {
        if sorted_by_start(t) {
            let r = t.push(x);
            assert forall|i: int, j: int| 0 <= i <= j < r.len() implies r[i].0 <= r[j].0 by {
                if j == t.len() && i < t.len() {
                    assert(t[i].0 <= t.last().0);
                }
            }
        }
    }
}

/// Each interval of an insertion is `x` or one of `t`'s.
proof fn lemma_insert_elements(t: Seq<(i32, i32, usize)>, x: (i32, i32, usize), i: int)
    requires
        0 <= i < t.len() + 1,
    ensures
        insert_by_start(t, x).len() == t.len() + 1,
        insert_by_start(t, x)[i] == x || exists|j: int|
            0 <= j < t.len() && t[j] == #[trigger] insert_by_start(t, x)[i],
    decreases t.len(),
{
    if t.len() == 0 {
    } else if t.last().0 <= x.0 {
        if i < t.len() {
            assert(t[i] == insert_by_start(t, x)[i]);
        }
    } else {
        let u = t.drop_last();
        if i < t.len() {
            lemma_insert_elements(u, x, i);
            if insert_by_start(u, x)[i] != x {
                let j = choose|j: int| 0 <= j < u.len() && u[j] == insert_by_start(u, x)[i];
                assert(t[j] == insert_by_start(t, x)[i]);
            }
        } else {
            lemma_insert_elements(u, x, 0);
            assert(t[t.len() - 1] == insert_by_start(t, x)[i]);
        }
    }
}

/// The stable sort keeps the length, sorts by start and keeps every bound
/// the intervals satisfy.
pub proof fn lemma_sort_props(s: Seq<(i32, i32, usize)>, lo: int, hi: int)
    ensures
        sort_by_start(s).len() == s.len(),
        sorted_by_start(sort_by_start(s)),
        all_within(s, lo, hi) ==> all_within(sort_by_start(s), lo, hi),
    decreases s.len(),
{
    if s.len() > 0 {
        let u = s.drop_last();
        lemma_sort_props(u, lo, hi);
        if all_within(s, lo, hi) {
            assert forall|k: int| 0 <= k < u.len() implies lo <= #[trigger] u[k].0 <= u[k].1 <= hi by {
                assert(u[k] == s[k]);
            }
            assert(lo <= s.last().0 <= s.last().1 <= hi) by {
                assert(s.last() == s[s.len() - 1]);
            }
        }
        lemma_insert_props(sort_by_start(u), s.last(), lo, hi);
    }
}

/// `x` put into the sorted intervals `out`, behind every one that does not
/// start later.
fn insert_sorted(out: &mut Vec<(i32, i32, usize)>, x: (i32, i32, usize))
    ensures
        final(out)@ == insert_by_start(old(out)@, x),
{
    let mut p = out.len();
    while p > 0 && out[p - 1].0 > x.0
        invariant
            p <= out.len(),
            forall|j: int| p <= j < out.len() ==> out@[j].0 > x.0,
        decreases p,
    {
        p -= 1;
    }
    proof {
        lemma_insert_at(out@, x, p as int);
    }
    out.insert(p, x);
}

/// The intervals with their positions, stably sorted by start.
pub fn by_start(intervals: &[(i32, i32)]) -> (r: Vec<(i32, i32, usize)>)
    ensures
        r@ == sort_by_start(tagged(intervals@)),
{
    let mut out: Vec<(i32, i32, usize)> = Vec::new();
    let mut i: usize = 0;
    while i < intervals.len()
        invariant
            i <= intervals.len(),
            out@ == sort_by_start(tagged(intervals@).take(i as int)),
        decreases intervals.len() - i,
    {
        let (s, e) = intervals[i];
        proof {
            let t = tagged(intervals@).take(i + 1);
            assert(t.drop_last() =~= tagged(intervals@).take(i as int));
            assert(t.last() == (s, e, i));
        }
        insert_sorted(&mut out, (s, e, i));
        i += 1;
    }
    proof {
        assert(tagged(intervals@).take(intervals@.len() as int) =~= tagged(intervals@));
    }
    out
}

// ---------------------------------------------------------------------------
// Sessions
// ---------------------------------------------------------------------------

pub open spec fn max(a: int, b: int) -> int {
    if a < b {
        b
    } else {
        a
    }
}

/// The sessions of intervals taken in the order given: each one is merged
/// into the session before it while it starts at or before the end reached
/// so far. A session is its start, the end it reaches and the positions of
/// its intervals.
pub open spec fn merged(t: Seq<(i32, i32, usize)>) -> Seq<(int, int, Seq<usize>)>
    decreases t.len(),
{
    if t.len() == 0 {
        Seq::empty()
    } else {
        let m = merged(t.drop_last());
        let x = t.last();
        if m.len() > 0 && x.0 <= m.last().1 {
            m.update(
                m.len() - 1,
                (m.last().0, max(m.last().1, x.1 as int), m.last().2.push(x.2)),
            )
        } else {
            m.push((x.0 as int, x.1 as int, seq![x.2]))
        }
    }
}

/// The seamless sessions of a list of intervals.
pub open spec fn sessions_of(iv: Seq<(i32, i32)>) -> Seq<(int, int, Seq<usize>)> {
    merged(sort_by_start(tagged(iv)))
}

/// Merging: sessions fit in `i32`, there are no more of them than intervals,
/// and between two sessions lies at least one minute off.
pub proof fn lemma_merged(t: Seq<(i32, i32, usize)>)
    ensures
        merged(t).len() <= t.len(),
        t.len() > 0 ==> merged(t).len() > 0,
        forall|k: int|
            0 <= k < merged(t).len() ==> i32::MIN <= #[trigger] merged(t)[k].0 <= i32::MAX
                && i32::MIN <= merged(t)[k].1 <= i32::MAX,
        forall|k: int| 0 <= k < merged(t).len() - 1 ==> #[trigger] merged(t)[k].1 < merged(t)[k + 1].0,
    decreases t.len(),
{
    if t.len() > 0 {
        lemma_merged(t.drop_last());
        let m = merged(t.drop_last());
        let r = merged(t);
        if m.len() > 0 && t.last().0 <= m.last().1 {
            assert forall|k: int| 0 <= k < r.len() - 1 implies #[trigger] r[k].1 < r[k + 1].0 by {
                assert(r[k] == m[k]);
                if k + 1 < r.len() - 1 {
                    assert(r[k + 1] == m[k + 1]);
                } else {
                    assert(r[k + 1].0 == m[k + 1].0);
                }
            }
        } else {
            assert forall|k: int| 0 <= k < r.len() - 1 implies #[trigger] r[k].1 < r[k + 1].0 by {
                assert(r[k] == m[k]);
                if k + 1 < r.len() - 1 {
                    assert(r[k + 1] == m[k + 1]);
                }
            }
        }
    }
}

/// Every position carried by the intervals of `t` is below `n`.
pub open spec fn tags_below(t: Seq<(i32, i32, usize)>, n: int) -> bool {
    forall|k: int| 0 <= k < t.len() ==> (#[trigger] t[k]).2 < n
}

/// Sorting keeps the positions the intervals carry.
pub proof fn lemma_sort_tags(s: Seq<(i32, i32, usize)>, n: int)
    requires
        tags_below(s, n),
    ensures
        tags_below(sort_by_start(s), n),
    decreases s.len(),
{
    if s.len() > 0 {
        let u = s.drop_last();
        assert forall|k: int| 0 <= k < u.len() implies (#[trigger] u[k]).2 < n by {
            assert(u[k] == s[k]);
        }
        lemma_sort_tags(u, n);
        lemma_sort_props(u, 0, 0);
        let t = sort_by_start(u);
        let x = s.last();
        assert(x == s[s.len() - 1]);
        lemma_insert_props(t, x, 0, 0);
        assert forall|k: int| 0 <= k < insert_by_start(t, x).len() implies (#[trigger] insert_by_start(
            t,
            x,
        )[k]).2 < n by {
            lemma_insert_elements(t, x, k);
            if insert_by_start(t, x)[k] != x {
                let j = choose|j: int| 0 <= j < t.len() && t[j] == insert_by_start(t, x)[k];
                assert(t[j].2 < n);
            }
        }
    }
}

/// The positions of the intervals of a list are below its length.
pub proof fn lemma_tagged_tags(iv: Seq<(i32, i32)>)
    ensures
        tags_below(tagged(iv), iv.len() as int),
        tagged(iv).len() == iv.len(),
{
}

/// The sessions of intervals within `lo..hi` lie within it too, and their
/// members are positions the intervals carry.
pub proof fn lemma_merged_bounds(t: Seq<(i32, i32, usize)>, lo: int, hi: int, n: int)
    ensures
        all_within(t, lo, hi) ==> forall|k: int|
            0 <= k < merged(t).len() ==> lo <= #[trigger] merged(t)[k].0 <= merged(t)[k].1 <= hi,
        tags_below(t, n) ==> forall|k: int, j: int|
            0 <= k < merged(t).len() && 0 <= j < merged(t)[k].2.len() ==> #[trigger] merged(t)[k].2[j]
                < n,
    decreases t.len(),
{
    if t.len() > 0 {
        let u = t.drop_last();
        lemma_merged_bounds(u, lo, hi, n);
        let m = merged(u);
        let r = merged(t);
        let x = t.last();
        assert(x == t[t.len() - 1]);
        if all_within(t, lo, hi) {
            assert(all_within(u, lo, hi)) by {
                assert forall|k: int| 0 <= k < u.len() implies lo <= #[trigger] u[k].0 <= u[k].1 <= hi by {
                    assert(u[k] == t[k]);
                }
            }
            assert forall|k: int| 0 <= k < r.len() implies lo <= #[trigger] r[k].0 <= r[k].1 <= hi by {
                if k < m.len() && !(k == m.len() - 1 && m.len() > 0 && x.0 <= m.last().1) {
                    assert(r[k] == m[k]);
                }
            }
        }
        if tags_below(t, n) {
            assert(tags_below(u, n)) by {
                assert forall|k: int| 0 <= k < u.len() implies (#[trigger] u[k]).2 < n by {
                    assert(u[k] == t[k]);
                }
            }
            assert forall|k: int, j: int|
                0 <= k < r.len() && 0 <= j < r[k].2.len() implies #[trigger] r[k].2[j] < n by {
                if k < m.len() && !(k == m.len() - 1 && m.len() > 0 && x.0 <= m.last().1) {
                    assert(r[k] == m[k]);
                } else if k < m.len() {
                    if j < m[k].2.len() {
                        assert(r[k].2[j] == m[k].2[j]);
                    }
                }
            }
        }
    }
}

/// Sessions and their members, read off intervals already in the order the
/// merge takes them.
fn runs(t: &Vec<(i32, i32, usize)>) -> (r: (Vec<(i32, i32)>, Vec<Vec<usize>>))
    ensures
        r.0@.len() == merged(t@).len(),
        r.1@.len() == merged(t@).len(),
        forall|k: int|
            0 <= k < merged(t@).len() ==> (#[trigger] r.0@[k]).0 == merged(t@)[k].0 && r.0@[k].1
                == merged(t@)[k].1,
        forall|k: int| 0 <= k < merged(t@).len() ==> (#[trigger] r.1@[k])@ == merged(t@)[k].2,
{
    let mut spans: Vec<(i32, i32)> = Vec::new();
    let mut members: Vec<Vec<usize>> = Vec::new();
    let mut i: usize = 0;
    while i < t.len()
        invariant
            i <= t.len(),
            spans@.len() == merged(t@.take(i as int)).len(),
            members@.len() == merged(t@.take(i as int)).len(),
            forall|k: int|
                0 <= k < merged(t@.take(i as int)).len() ==> (#[trigger] spans@[k]).0 == merged(
                    t@.take(i as int),
                )[k].0 && spans@[k].1 == merged(t@.take(i as int))[k].1,
            forall|k: int|
                0 <= k < merged(t@.take(i as int)).len() ==> (#[trigger] members@[k])@ == merged(
                    t@.take(i as int),
                )[k].2,
        decreases t.len() - i,
    {
        let ghost m = merged(t@.take(i as int));
        proof {
            assert(t@.take(i + 1).drop_last() =~= t@.take(i as int));
            assert(t@.take(i + 1).last() == t@[i as int]);
        }
        let (s, e, idx) = t[i];
        let n = spans.len();
        proof {
            assert(t@.take(i + 1).last() == (s, e, idx));
            if n > 0 {
                assert(m.last() == m[n - 1]);
            }
        }
        if n > 0 && s <= spans[n - 1].1 {
            let (s0, e0) = spans[n - 1];
            let e1 = if e0 < e {
                e
            } else {
                e0
            };
            spans.set(n - 1, (s0, e1));
            let ghost before = members@;
            let mut last = members.pop().unwrap();
            last.push(idx);
            members.push(last);
            proof {
                let m2 = merged(t@.take(i + 1));
                assert(m2 == m.update(n - 1, (m[n - 1].0, max(m[n - 1].1, e as int), m[n - 1].2.push(idx))));
                assert(members@ == before.update(n - 1, last));
                assert forall|k: int| 0 <= k < m2.len() implies (#[trigger] spans@[k]).0 == m2[k].0
                    && spans@[k].1 == m2[k].1 by {
                    if k < n - 1 {
                        assert(m2[k] == m[k]);
                    }
                }
                assert forall|k: int| 0 <= k < m2.len() implies (#[trigger] members@[k])@ == m2[k].2 by {
                    if k < n - 1 {
                        assert(m2[k] == m[k]);
                    }
                }
            }
        } else {
            spans.push((s, e));
            let mut g: Vec<usize> = Vec::new();
            g.push(idx);
            members.push(g);
            proof {
                let u = t@.take(i + 1);
                let x = u.last();
                assert(x == (s, e, idx));
                if n > 0 {
                    assert(spans@[n - 1].1 == m[n - 1].1);
                }
                assert(!(m.len() > 0 && x.0 <= m.last().1));
                let m2 = merged(u);
                assert(m2 == m.push((x.0 as int, x.1 as int, seq![x.2])));
                assert(g@ =~= seq![idx]);
                assert forall|k: int| 0 <= k < m2.len() implies (#[trigger] spans@[k]).0 == m2[k].0
                    && spans@[k].1 == m2[k].1 by {
                    if k < n {
                        assert(m2[k] == m[k]);
                    }
                }
                assert forall|k: int| 0 <= k < m2.len() implies (#[trigger] members@[k])@ == m2[k].2 by {
                    if k < n {
                        assert(m2[k] == m[k]);
                    }
                }
            }
        }
        i += 1;
    }
    proof {
        assert(t@.take(t@.len() as int) =~= t@);
    }
    (spans, members)
}

/// The seamless working sessions of a day.
///
/// Intervals are sorted by start and merged while the next one begins at or
/// before the end reached so far: a project switch at noon, an overlap and an
/// interval nested in a longer one all stay inside the same session. Any gap
/// of a minute or more starts the next session.
pub fn sessions(intervals: &[(i32, i32)]) -> (r: Vec<(i32, i32)>)
    ensures
        r@.len() == sessions_of(intervals@).len(),
        forall|k: int|
            0 <= k < r@.len() ==> (#[trigger] r@[k]).0 == sessions_of(intervals@)[k].0 && r@[k].1
                == sessions_of(intervals@)[k].1,
{
    let sorted = by_start(intervals);
    let (spans, _) = runs(&sorted);
    spans
}

/// The positions of the intervals that make up each session, in session
/// order and, inside a session, in clock order.
pub fn session_members(intervals: &[(i32, i32)]) -> (r: Vec<Vec<usize>>)
    ensures
        r@.len() == sessions_of(intervals@).len(),
        forall|k: int| 0 <= k < r@.len() ==> (#[trigger] r@[k])@ == sessions_of(intervals@)[k].2,
{
    let sorted = by_start(intervals);
    let (_, members) = runs(&sorted);
    members
}

/// What sessions lose, one by one on their own lengths, summed.
pub open spec fn sessions_deduction(m: Seq<(int, int, Seq<usize>)>, t: Seq<BreakTier>) -> int
    decreases m.len(),
{
    if m.len() == 0 {
        0
    } else {
        sessions_deduction(m.drop_last(), t) + tier_deduction(t, m.last().1 - m.last().0)
    }
}

/// Whether every session of `iv` is no longer than `i32` can say.
pub open spec fn session_lengths_fit(iv: Seq<(i32, i32)>) -> bool {
    forall|k: int|
        0 <= k < sessions_of(iv).len() ==> i32::MIN <= #[trigger] sessions_of(iv)[k].1 - sessions_of(
            iv,
        )[k].0 <= i32::MAX
}

/// The break deduction of a whole day: the tier deduction of every seamless
/// session on its own length, summed. A day without entries has no session
/// and is not charged.
pub fn session_deduction(intervals: &[(i32, i32)], tiers: &[BreakTier]) -> (r: Minutes)
    requires
        session_lengths_fit(intervals@),
        i32::MIN <= sessions_deduction(sessions_of(intervals@), tiers@) <= i32::MAX,
        intervals@.len() <= u32::MAX,
    ensures
        r.0 == sessions_deduction(sessions_of(intervals@), tiers@),
{
    let s = sessions(intervals);
    let ghost m = sessions_of(intervals@);
    proof {
        lemma_merged(sort_by_start(tagged(intervals@)));
        lemma_sort_props(tagged(intervals@), 0, 0);
    }
    let mut total: i64 = 0;
    let mut k: usize = 0;
    while k < s.len()
        invariant
            k <= s.len() == m.len() <= u32::MAX,
            session_lengths_fit(intervals@),
            m == sessions_of(intervals@),
            forall|j: int| 0 <= j < s@.len() ==> (#[trigger] s@[j]).0 == m[j].0 && s@[j].1 == m[j].1,
            total == sessions_deduction(m.take(k as int), tiers@),
            -0x8000_0000 * k <= total <= 0x7fff_ffff * k,
        decreases s.len() - k,
    {
        let (a, b) = s[k];
        proof {
            assert(i32::MIN <= m[k as int].1 - m[k as int].0 <= i32::MAX);
            assert(m.take(k + 1).drop_last() =~= m.take(k as int));
        }
        let d = deduction(Minutes(b - a), tiers);
        total = total + d.0 as i64;
        k += 1;
    }
    proof {
        assert(m.take(m.len() as int) =~= m);
    }
    Minutes(total as i32)
}

// ---------------------------------------------------------------------------
// Recorded pauses
// ---------------------------------------------------------------------------

/// The furthest end reached by the intervals of `t`.
pub open spec fn reach(t: Seq<(i32, i32, usize)>) -> int
    decreases t.len(),
{
    if t.len() <= 1 {
        t[0].1 as int
    } else {
        max(reach(t.drop_last()), t.last().1 as int)
    }
}

/// The pauses between intervals in the order given, each measured from the
/// furthest end reached before it and never negative.
pub open spec fn gaps_of(t: Seq<(i32, i32, usize)>) -> int
    decreases t.len(),
{
    if t.len() <= 1 {
        0
    } else {
        gaps_of(t.drop_last()) + max(0, t.last().0 - reach(t.drop_last()))
    }
}

/// The pauses of a list of intervals, taken in clock order.
pub open spec fn gaps_in(iv: Seq<(i32, i32)>) -> int {
    gaps_of(sort_by_start(tagged(iv)))
}

proof fn lemma_gaps_grow(t: Seq<(i32, i32, usize)>, i: int)
    requires
        0 <= i <= t.len(),
    ensures
        0 <= gaps_of(t.take(i)) <= gaps_of(t),
    decreases t.len() - i,
{
    if i < t.len() {
        lemma_gaps_grow(t.drop_last(), i);
        assert(t.drop_last().take(i) =~= t.take(i));
    } else {
        assert(t.take(i) =~= t);
        lemma_gaps_nonneg(t);
    }
}

proof fn lemma_gaps_nonneg(t: Seq<(i32, i32, usize)>)
    ensures
        gaps_of(t) >= 0,
    decreases t.len(),
{
    if t.len() > 1 {
        lemma_gaps_nonneg(t.drop_last());
    }
}

/// The pauses never add up to more than the span from the first start to
/// the furthest end.
pub proof fn lemma_gaps_bound(t: Seq<(i32, i32, usize)>, lo: int, hi: int)
    requires
        t.len() > 0,
        all_within(t, lo, hi),
    ensures
        0 <= gaps_of(t) <= reach(t) - t[0].0,
        lo <= reach(t) <= hi,
    decreases t.len(),
{
    lemma_gaps_nonneg(t);
    if t.len() > 1 {
        let u = t.drop_last();
        assert forall|k: int| 0 <= k < u.len() implies lo <= #[trigger] u[k].0 <= u[k].1 <= hi by {
            assert(u[k] == t[k]);
        }
        lemma_gaps_bound(u, lo, hi);
        assert(u[0] == t[0]);
        assert(t.last() == t[t.len() - 1]);
    } else {
        assert(t[0] == t[0]);
    }
}

/// Whether minute `p` lies in one of the intervals `[start, end)` of `iv`.
pub open spec fn covers(iv: Seq<(i32, i32)>, p: int) -> bool {
    exists|k: int| 0 <= k < iv.len() && (#[trigger] iv[k]).0 <= p < iv[k].1
}

/// Whether minute `p` lies in one of the intervals of `t`.
pub open spec fn covers_tagged(t: Seq<(i32, i32, usize)>, p: int) -> bool {
    exists|k: int| 0 <= k < t.len() && (#[trigger] t[k]).0 <= p < t[k].1
}

/// Whether minute `p` lies in one of the sessions `[start, end)` of `m`.
pub open spec fn sessions_cover(m: Seq<(int, int, Seq<usize>)>, p: int) -> bool {
    exists|j: int| 0 <= j < m.len() && (#[trigger] m[j]).0 <= p < m[j].1
}

/// Inserting adds the one interval to those there were.
proof fn lemma_insert_multiset(t: Seq<(i32, i32, usize)>, x: (i32, i32, usize))
    ensures
        insert_by_start(t, x).to_multiset() == t.to_multiset().insert(x),
    decreases t.len(),
{
    broadcast use vstd::seq_lib::group_seq_properties;
    if t.len() == 0 {
        assert(insert_by_start(t, x) =~= t.push(x));
    } else if t.last().0 <= x.0 {
    } else {
        let u = t.drop_last();
        lemma_insert_multiset(u, x);
        assert(t =~= u.push(t.last()));
    }
}

/// Sorting keeps the intervals there were.
proof fn lemma_sort_multiset(s: Seq<(i32, i32, usize)>)
    ensures
        sort_by_start(s).to_multiset() == s.to_multiset(),
    decreases s.len(),
{
    broadcast use vstd::seq_lib::group_seq_properties;
    if s.len() > 0 {
        lemma_sort_multiset(s.drop_last());
        lemma_insert_multiset(sort_by_start(s.drop_last()), s.last());
        assert(s =~= s.drop_last().push(s.last()));
    }
}

/// Merging intervals sorted by start covers the minutes they cover, and the
/// last session starts no later than the last interval.
proof fn lemma_merged_covers(t: Seq<(i32, i32, usize)>, p: int)
    requires
        sorted_by_start(t),
        forall|k: int| 0 <= k < t.len() ==> (#[trigger] t[k]).0 <= t[k].1,
    ensures
        t.len() > 0 ==> merged(t).len() > 0 && merged(t).last().0 <= t.last().0,
        covers_tagged(t, p) <==> sessions_cover(merged(t), p),
    decreases t.len(),
{
    if t.len() > 0 {
        let u = t.drop_last();
        assert(sorted_by_start(u)) by {
            assert forall|i: int, j: int| 0 <= i <= j < u.len() implies u[i].0 <= u[j].0 by {
                assert(u[i] == t[i] && u[j] == t[j]);
            }
        }
        assert forall|k: int| 0 <= k < u.len() implies (#[trigger] u[k]).0 <= u[k].1 by {
            assert(u[k] == t[k]);
        }
        lemma_merged_covers(u, p);
        lemma_gaps_are_holes(u);
        let m = merged(u);
        let x = t.last();
        assert(x == t[t.len() - 1]);
        let r = merged(t);
        if u.len() > 0 {
            assert(u.last() == t[t.len() - 2]);
            assert(m.last().0 <= x.0);
        }
        if covers_tagged(u, p) {
            let k = choose|k: int| 0 <= k < u.len() && (#[trigger] u[k]).0 <= p < u[k].1;
            assert(t[k] == u[k]);
        }
        if covers_tagged(t, p) && !(x.0 <= p < x.1) {
            let k = choose|k: int| 0 <= k < t.len() && (#[trigger] t[k]).0 <= p < t[k].1;
            assert(k < u.len());
            assert(u[k] == t[k]);
        }
        if u.len() == 0 {
            assert(r =~= seq![(x.0 as int, x.1 as int, seq![x.2])]);
            if sessions_cover(r, p) {
                assert(r[0].0 <= p < r[0].1);
            }
            if x.0 <= p < x.1 {
                assert(r[0].0 <= p < r[0].1);
            }
        } else if x.0 <= m.last().1 {
            let last = m.len() - 1;
            assert(r.len() == m.len());
            assert forall|j: int| 0 <= j < last implies #[trigger] r[j] == m[j] by {}
            if sessions_cover(r, p) {
                let j = choose|j: int| 0 <= j < r.len() && (#[trigger] r[j]).0 <= p < r[j].1;
                if j < last {
                    assert(m[j].0 <= p < m[j].1);
                } else if p < m.last().1 {
                    assert(m[last].0 <= p < m[last].1);
                }
            }
            if sessions_cover(m, p) {
                let j = choose|j: int| 0 <= j < m.len() && (#[trigger] m[j]).0 <= p < m[j].1;
                if j < last {
                    assert(r[j].0 <= p < r[j].1);
                } else {
                    assert(r[last].0 <= p < r[last].1);
                }
            }
            if x.0 <= p < x.1 {
                assert(r[last].0 <= p < r[last].1);
            }
        } else {
            assert(r =~= m.push((x.0 as int, x.1 as int, seq![x.2])));
            if sessions_cover(r, p) {
                let j = choose|j: int| 0 <= j < r.len() && (#[trigger] r[j]).0 <= p < r[j].1;
                if j < m.len() {
                    assert(m[j].0 <= p < m[j].1);
                }
            }
            if sessions_cover(m, p) {
                let j = choose|j: int| 0 <= j < m.len() && (#[trigger] m[j]).0 <= p < m[j].1;
                assert(r[j].0 <= p < r[j].1);
            }
            if x.0 <= p < x.1 {
                assert(r[m.len() as int].0 <= p < r[m.len() as int].1);
            }
        }
    }
}

/// The sessions of a day keep exactly the minutes its intervals cover:
/// minute `p` is in some session if and only if it is in some interval.
pub proof fn sessions_keep_the_worked_minutes(iv: Seq<(i32, i32)>, p: int)
    requires
        forall|k: int| 0 <= k < iv.len() ==> (#[trigger] iv[k]).0 <= iv[k].1,
    ensures
        covers(iv, p) <==> sessions_cover(sessions_of(iv), p),
        sessions_of(iv).len() <= iv.len(),
{
    let t = tagged(iv);
    assert(all_within(t, i32::MIN as int, i32::MAX as int)) by {
        assert forall|k: int| 0 <= k < t.len() implies i32::MIN <= #[trigger] t[k].0 <= t[k].1 <= i32::MAX by {
            assert(t[k].0 == iv[k].0 && t[k].1 == iv[k].1);
        }
    }
    lemma_sort_props(t, i32::MIN as int, i32::MAX as int);
    lemma_sort_multiset(t);
    let st = sort_by_start(t);
    assert forall|k: int| 0 <= k < st.len() implies (#[trigger] st[k]).0 <= st[k].1 by {}
    lemma_merged_covers(st, p);
    lemma_merged(st);
    st.to_multiset_ensures();
    t.to_multiset_ensures();
    if covers(iv, p) {
        let k = choose|k: int| 0 <= k < iv.len() && (#[trigger] iv[k]).0 <= p < iv[k].1;
        assert(t.contains(t[k]));
        assert(t.to_multiset().count(t[k]) > 0);
        assert(st.to_multiset().count(t[k]) > 0);
        assert(st.contains(t[k]));
        let j = choose|j: int| 0 <= j < st.len() && st[j] == t[k];
        assert(covers_tagged(st, p));
    }
    if covers_tagged(st, p) {
        let j = choose|j: int| 0 <= j < st.len() && (#[trigger] st[j]).0 <= p < st[j].1;
        assert(st.contains(st[j]));
        assert(st.to_multiset().count(st[j]) > 0);
        assert(t.to_multiset().count(st[j]) > 0);
        assert(t.contains(st[j]));
        let k = choose|k: int| 0 <= k < t.len() && t[k] == st[j];
        assert(iv[k].0 <= p < iv[k].1);
    }
}

/// The sessions as `(start, end)`.
pub open spec fn spans(m: Seq<(int, int, Seq<usize>)>) -> Seq<(int, int)> {
    Seq::new(m.len(), |j: int| (m[j].0, m[j].1))
}

/// Whether minute `p` lies in one of the spans `[start, end)` of `a`.
pub open spec fn span_cover(a: Seq<(int, int)>, p: int) -> bool {
    exists|j: int| 0 <= j < a.len() && (#[trigger] a[j]).0 <= p < a[j].1
}

/// Spans that are not empty, in order, each ending before the next starts.
pub open spec fn spans_apart(a: Seq<(int, int)>) -> bool {
    &&& forall|j: int| 0 <= j < a.len() ==> (#[trigger] a[j]).0 < a[j].1
    &&& forall|i: int, j: int| 0 <= i < j < a.len() ==> (#[trigger] a[i]).1 < (#[trigger] a[j]).0
}

/// Spans apart are told apart by the minutes they cover: two lists that
/// cover the same minutes are the same list.
proof fn lemma_spans_unique(a: Seq<(int, int)>, b: Seq<(int, int)>)
    requires
        spans_apart(a),
        spans_apart(b),
        forall|p: int| span_cover(a, p) == span_cover(b, p),
    ensures
        a == b,
    decreases a.len() + b.len(),
{
    if a.len() == 0 && b.len() == 0 {
        assert(a =~= b);
    } else if a.len() == 0 {
        assert(span_cover(b, b[0].0));
    } else if b.len() == 0 {
        assert(span_cover(a, a[0].0));
    } else {
        // The first starts are the first covered minute.
        if a[0].0 < b[0].0 {
            assert(span_cover(a, a[0].0));
            let j = choose|j: int| 0 <= j < b.len() && (#[trigger] b[j]).0 <= a[0].0 < b[j].1;
            if j > 0 {
                assert(b[0].1 < b[j].0);
            }
        }
        if b[0].0 < a[0].0 {
            assert(span_cover(b, b[0].0));
            let j = choose|j: int| 0 <= j < a.len() && (#[trigger] a[j]).0 <= b[0].0 < a[j].1;
            if j > 0 {
                assert(a[0].1 < a[j].0);
            }
        }
        assert(a[0].0 == b[0].0);
        // The first ends are the first minute after them not covered.
        if a[0].1 < b[0].1 {
            assert(span_cover(b, a[0].1));
            let j = choose|j: int| 0 <= j < a.len() && (#[trigger] a[j]).0 <= a[0].1 < a[j].1;
            if j > 0 {
                assert(a[0].1 < a[j].0);
            }
        }
        if b[0].1 < a[0].1 {
            assert(span_cover(a, b[0].1));
            let j = choose|j: int| 0 <= j < b.len() && (#[trigger] b[j]).0 <= b[0].1 < b[j].1;
            if j > 0 {
                assert(b[0].1 < b[j].0);
            }
        }
        assert(a[0] == b[0]);
        let ta = a.drop_first();
        let tb = b.drop_first();
        assert(spans_apart(ta)) by {
            assert forall|i: int, j: int| 0 <= i < j < ta.len() implies (#[trigger] ta[i]).1 < (#[trigger] ta[j]).0 by {
                assert(ta[i] == a[i + 1] && ta[j] == a[j + 1]);
            }
            assert forall|j: int| 0 <= j < ta.len() implies (#[trigger] ta[j]).0 < ta[j].1 by {
                assert(ta[j] == a[j + 1]);
            }
        }
        assert(spans_apart(tb)) by {
            assert forall|i: int, j: int| 0 <= i < j < tb.len() implies (#[trigger] tb[i]).1 < (#[trigger] tb[j]).0 by {
                assert(tb[i] == b[i + 1] && tb[j] == b[j + 1]);
            }
            assert forall|j: int| 0 <= j < tb.len() implies (#[trigger] tb[j]).0 < tb[j].1 by {
                assert(tb[j] == b[j + 1]);
            }
        }
        assert forall|p: int| span_cover(ta, p) == span_cover(tb, p) by {
            if span_cover(ta, p) {
                let j = choose|j: int| 0 <= j < ta.len() && (#[trigger] ta[j]).0 <= p < ta[j].1;
                assert(a[j + 1] == ta[j]);
                assert(a[0].1 < a[j + 1].0);
                assert(span_cover(a, p));
                let i = choose|i: int| 0 <= i < b.len() && (#[trigger] b[i]).0 <= p < b[i].1;
                assert(i > 0);
                assert(tb[i - 1] == b[i]);
            }
            if span_cover(tb, p) {
                let j = choose|j: int| 0 <= j < tb.len() && (#[trigger] tb[j]).0 <= p < tb[j].1;
                assert(b[j + 1] == tb[j]);
                assert(b[0].1 < b[j + 1].0);
                assert(span_cover(b, p));
                let i = choose|i: int| 0 <= i < a.len() && (#[trigger] a[i]).0 <= p < a[i].1;
                assert(i > 0);
                assert(ta[i - 1] == a[i]);
            }
        }
        lemma_spans_unique(ta, tb);
        assert(a =~= seq![a[0]] + ta);
        assert(b =~= seq![b[0]] + tb);
    }
}

/// Merging intervals that each last at least a minute gives sessions that
/// last at least a minute, each ending before the next starts.
proof fn lemma_merged_apart(t: Seq<(i32, i32, usize)>)
    requires
        forall|k: int| 0 <= k < t.len() ==> (#[trigger] t[k]).0 < t[k].1,
    ensures
        spans_apart(spans(merged(t))),
    decreases t.len(),
{
    lemma_merged(t);
    let m = merged(t);
    let a = spans(m);
    if t.len() > 0 {
        let u = t.drop_last();
        assert forall|k: int| 0 <= k < u.len() implies (#[trigger] u[k]).0 < u[k].1 by {
            assert(u[k] == t[k]);
        }
        lemma_merged_apart(u);
        let mu = merged(u);
        let x = t.last();
        assert(x == t[t.len() - 1]);
        assert forall|j: int| 0 <= j < a.len() implies (#[trigger] a[j]).0 < a[j].1 by {
            if j < mu.len() {
                assert(spans(mu)[j] == (mu[j].0, mu[j].1));
            }
        }
    }
    assert forall|i: int, j: int| 0 <= i < j < a.len() implies (#[trigger] a[i]).1 < (#[trigger] a[j]).0 by {
        lemma_apart_chain(a, i, j);
    }
}

/// Neighbours apart make every pair apart.
proof fn lemma_apart_chain(a: Seq<(int, int)>, i: int, j: int)
    requires
        0 <= i < j < a.len(),
        forall|k: int| 0 <= k < a.len() ==> (#[trigger] a[k]).0 < a[k].1,
        forall|k: int| 0 <= k < a.len() - 1 ==> (#[trigger] a[k]).1 < a[k + 1].0,
    ensures
        a[i].1 < a[j].0,
    decreases j - i,
{
    if j > i + 1 {
        lemma_apart_chain(a, i, j - 1);
        assert(a[j - 1].0 < a[j - 1].1);
        assert(a[j - 1].1 < a[j].0);
    }
}

/// The sessions of a day are its worked spans: as spans they come in clock
/// order, each ending before the next starts with at least a minute between
/// them, and together they cover exactly the minutes its intervals cover.
pub proof fn sessions_are_the_worked_spans(iv: Seq<(i32, i32)>)
    requires
        forall|k: int| 0 <= k < iv.len() ==> (#[trigger] iv[k]).0 < iv[k].1,
    ensures
        spans_apart(spans(sessions_of(iv))),
        forall|p: int| span_cover(spans(sessions_of(iv)), p) == covers(iv, p),
{
    let t = tagged(iv);
    assert(all_within(t, i32::MIN as int, i32::MAX as int)) by {
        assert forall|k: int| 0 <= k < t.len() implies i32::MIN <= #[trigger] t[k].0 <= t[k].1 <= i32::MAX by {
            assert(t[k].0 == iv[k].0 && t[k].1 == iv[k].1);
        }
    }
    lemma_sort_props(t, i32::MIN as int, i32::MAX as int);
    lemma_sort_multiset(t);
    let st = sort_by_start(t);
    st.to_multiset_ensures();
    t.to_multiset_ensures();
    assert forall|k: int| 0 <= k < st.len() implies (#[trigger] st[k]).0 < st[k].1 by {
        assert(st.contains(st[k]));
        assert(st.to_multiset().count(st[k]) > 0);
        assert(t.to_multiset().count(st[k]) > 0);
        assert(t.contains(st[k]));
        let j = choose|j: int| 0 <= j < t.len() && t[j] == st[k];
        assert(iv[j].0 < iv[j].1);
    }
    lemma_merged_apart(st);
    let m = sessions_of(iv);
    assert forall|p: int| span_cover(spans(m), p) == covers(iv, p) by {
        sessions_keep_the_worked_minutes(iv, p);
        if span_cover(spans(m), p) {
            let j = choose|j: int| 0 <= j < spans(m).len() && (#[trigger] spans(m)[j]).0 <= p < spans(m)[j].1;
            assert(m[j].0 <= p < m[j].1);
        }
        if sessions_cover(m, p) {
            let j = choose|j: int| 0 <= j < m.len() && (#[trigger] m[j]).0 <= p < m[j].1;
            assert(spans(m)[j].0 <= p < spans(m)[j].1);
        }
    }
}

/// The sessions of a day do not depend on the order its intervals are
/// listed in: two lists with the same intervals, each lasting at least a
/// minute, make the same sessions and the same pauses.
pub proof fn sessions_ignore_the_order(iv: Seq<(i32, i32)>, jv: Seq<(i32, i32)>)
    requires
        iv.to_multiset() == jv.to_multiset(),
        forall|k: int| 0 <= k < iv.len() ==> (#[trigger] iv[k]).0 < iv[k].1,
    ensures
        spans(sessions_of(iv)) == spans(sessions_of(jv)),
        gaps_in(iv) == gaps_in(jv),
{
    iv.to_multiset_ensures();
    jv.to_multiset_ensures();
    assert forall|k: int| 0 <= k < jv.len() implies (#[trigger] jv[k]).0 < jv[k].1 by {
        assert(jv.contains(jv[k]));
        assert(jv.to_multiset().count(jv[k]) > 0);
        assert(iv.contains(jv[k]));
        let j = choose|j: int| 0 <= j < iv.len() && iv[j] == jv[k];
    }
    assert forall|p: int| covers(iv, p) == covers(jv, p) by {
        if covers(iv, p) {
            let k = choose|k: int| 0 <= k < iv.len() && (#[trigger] iv[k]).0 <= p < iv[k].1;
            assert(iv.contains(iv[k]));
            assert(iv.to_multiset().count(iv[k]) > 0);
            assert(jv.contains(iv[k]));
            let j = choose|j: int| 0 <= j < jv.len() && jv[j] == iv[k];
            assert(jv[j].0 <= p < jv[j].1);
        }
        if covers(jv, p) {
            let k = choose|k: int| 0 <= k < jv.len() && (#[trigger] jv[k]).0 <= p < jv[k].1;
            assert(jv.contains(jv[k]));
            assert(jv.to_multiset().count(jv[k]) > 0);
            assert(iv.contains(jv[k]));
            let j = choose|j: int| 0 <= j < iv.len() && iv[j] == jv[k];
            assert(iv[j].0 <= p < iv[j].1);
        }
    }
    sessions_are_the_worked_spans(iv);
    sessions_are_the_worked_spans(jv);
    assert forall|p: int| span_cover(spans(sessions_of(iv)), p) == span_cover(spans(sessions_of(jv)), p) by {
        assert(covers(iv, p) == covers(jv, p));
        assert(span_cover(spans(sessions_of(iv)), p) == covers(iv, p));
        assert(span_cover(spans(sessions_of(jv)), p) == covers(jv, p));
    }
    lemma_spans_unique(spans(sessions_of(iv)), spans(sessions_of(jv)));
    pauses_are_the_holes_between_sessions(iv);
    assert forall|k: int| 0 <= k < jv.len() implies (#[trigger] jv[k]).0 <= jv[k].1 by {}
    pauses_are_the_holes_between_sessions(jv);
    lemma_holes_of_spans(sessions_of(iv), sessions_of(jv));
}

/// What spans lose, one by one on their own lengths, summed.
pub open spec fn spans_deduction(a: Seq<(int, int)>, t: Seq<BreakTier>) -> int
    decreases a.len(),
{
    if a.len() == 0 {
        0
    } else {
        spans_deduction(a.drop_last(), t) + tier_deduction(t, a.last().1 - a.last().0)
    }
}

proof fn lemma_deduction_of_spans(m: Seq<(int, int, Seq<usize>)>, t: Seq<BreakTier>)
    ensures
        sessions_deduction(m, t) == spans_deduction(spans(m), t),
    decreases m.len(),
{
    if m.len() > 0 {
        assert(spans(m.drop_last()) =~= spans(m).drop_last());
        lemma_deduction_of_spans(m.drop_last(), t);
        assert(spans(m).last() == (m.last().0, m.last().1));
    }
}

proof fn lemma_spans_deduction_concat(a: Seq<(int, int)>, b: Seq<(int, int)>, t: Seq<BreakTier>)
    ensures
        spans_deduction(a + b, t) == spans_deduction(a, t) + spans_deduction(b, t),
    decreases b.len(),
{
    if b.len() == 0 {
        assert(a + b =~= a);
    } else {
        assert((a + b).drop_last() =~= a + b.drop_last());
        assert((a + b).last() == b.last());
        lemma_spans_deduction_concat(a, b.drop_last(), t);
    }
}

/// The sessions of intervals that all lie within `[lo, hi]`, as spans, and
/// the minutes they cover.
proof fn lemma_sessions_within(iv: Seq<(i32, i32)>, lo: int, hi: int)
    requires
        forall|k: int| 0 <= k < iv.len() ==> lo <= (#[trigger] iv[k]).0 < iv[k].1 <= hi,
    ensures
        forall|j: int|
            0 <= j < spans(sessions_of(iv)).len() ==> lo <= (#[trigger] spans(sessions_of(iv))[j]).0
                && spans(sessions_of(iv))[j].1 <= hi,
        spans_apart(spans(sessions_of(iv))),
        forall|p: int| span_cover(spans(sessions_of(iv)), p) == covers(iv, p),
{
    let t = tagged(iv);
    assert(all_within(t, lo, hi)) by {
        assert forall|k: int| 0 <= k < t.len() implies lo <= #[trigger] t[k].0 <= t[k].1 <= hi by {
            assert(t[k].0 == iv[k].0 && t[k].1 == iv[k].1);
        }
    }
    lemma_sort_props(t, lo, hi);
    lemma_merged_bounds(sort_by_start(t), lo, hi, 0);
    sessions_are_the_worked_spans(iv);
    let m = sessions_of(iv);
    assert forall|j: int| 0 <= j < spans(m).len() implies lo <= (#[trigger] spans(m)[j]).0 && spans(m)[j].1
        <= hi by {
        assert(spans(m)[j] == (m[j].0, m[j].1));
    }
}

/// A real pause splits the day: when every interval of `a` has ended by
/// minute `q` and every interval of `b` starts after it, the break deduction
/// of both together is the deduction of `a` plus that of `b`, each charged
/// on its own.
pub proof fn a_real_pause_splits_the_deduction(a: Seq<(i32, i32)>, b: Seq<(i32, i32)>, q: int, t: Seq<BreakTier>)
    requires
        forall|k: int| 0 <= k < a.len() ==> (#[trigger] a[k]).0 < a[k].1 <= q,
        forall|k: int| 0 <= k < b.len() ==> q < (#[trigger] b[k]).0 < b[k].1,
    ensures
        sessions_deduction(sessions_of(a + b), t) == sessions_deduction(sessions_of(a), t)
            + sessions_deduction(sessions_of(b), t),
{
    let ab = a + b;
    lemma_sessions_within(a, i32::MIN as int, q);
    lemma_sessions_within(b, q + 1, i32::MAX as int);
    assert forall|k: int| 0 <= k < ab.len() implies (#[trigger] ab[k]).0 < ab[k].1 by {
        if k < a.len() {
            assert(ab[k] == a[k]);
        } else {
            assert(ab[k] == b[k - a.len()]);
        }
    }
    sessions_are_the_worked_spans(ab);
    let sa = spans(sessions_of(a));
    let sb = spans(sessions_of(b));
    let c = sa + sb;
    assert(spans_apart(c)) by {
        assert forall|j: int| 0 <= j < c.len() implies (#[trigger] c[j]).0 < c[j].1 by {
            if j < sa.len() {
                assert(c[j] == sa[j]);
            } else {
                assert(c[j] == sb[j - sa.len()]);
            }
        }
        assert forall|i: int, j: int| 0 <= i < j < c.len() implies (#[trigger] c[i]).1 < (#[trigger] c[j]).0 by {
            if j < sa.len() {
                assert(c[i] == sa[i] && c[j] == sa[j]);
            } else if i >= sa.len() {
                assert(c[i] == sb[i - sa.len()] && c[j] == sb[j - sa.len()]);
            } else {
                assert(c[i] == sa[i] && c[j] == sb[j - sa.len()]);
            }
        }
    }
    assert forall|p: int| span_cover(c, p) == span_cover(spans(sessions_of(ab)), p) by {
        assert(span_cover(spans(sessions_of(ab)), p) == covers(ab, p));
        assert(span_cover(sa, p) == covers(a, p));
        assert(span_cover(sb, p) == covers(b, p));
        if span_cover(c, p) {
            let j = choose|j: int| 0 <= j < c.len() && (#[trigger] c[j]).0 <= p < c[j].1;
            if j < sa.len() {
                assert(c[j] == sa[j]);
                assert(span_cover(sa, p));
                let k = choose|k: int| 0 <= k < a.len() && (#[trigger] a[k]).0 <= p < a[k].1;
                assert(ab[k] == a[k]);
            } else {
                assert(c[j] == sb[j - sa.len()]);
                assert(span_cover(sb, p));
                let k = choose|k: int| 0 <= k < b.len() && (#[trigger] b[k]).0 <= p < b[k].1;
                assert(ab[k + a.len()] == b[k]);
            }
        }
        if covers(ab, p) {
            let k = choose|k: int| 0 <= k < ab.len() && (#[trigger] ab[k]).0 <= p < ab[k].1;
            if k < a.len() {
                assert(ab[k] == a[k]);
                assert(covers(a, p));
                let j = choose|j: int| 0 <= j < sa.len() && (#[trigger] sa[j]).0 <= p < sa[j].1;
                assert(c[j] == sa[j]);
            } else {
                assert(ab[k] == b[k - a.len()]);
                assert(covers(b, p));
                let j = choose|j: int| 0 <= j < sb.len() && (#[trigger] sb[j]).0 <= p < sb[j].1;
                assert(c[j + sa.len()] == sb[j]);
            }
        }
    }
    lemma_spans_unique(c, spans(sessions_of(ab)));
    lemma_deduction_of_spans(sessions_of(ab), t);
    lemma_deduction_of_spans(sessions_of(a), t);
    lemma_deduction_of_spans(sessions_of(b), t);
    lemma_spans_deduction_concat(sa, sb, t);
}

/// The holes depend on the spans alone.
proof fn lemma_holes_of_spans(m: Seq<(int, int, Seq<usize>)>, n: Seq<(int, int, Seq<usize>)>)
    requires
        spans(m) == spans(n),
    ensures
        holes(m) == holes(n),
    decreases m.len(),
{
    assert(m.len() == spans(m).len() && n.len() == spans(n).len());
    if m.len() > 1 {
        assert(spans(m.drop_last()) =~= spans(m).drop_last());
        assert(spans(n.drop_last()) =~= spans(n).drop_last());
        lemma_holes_of_spans(m.drop_last(), n.drop_last());
        assert(spans(m)[m.len() - 1] == spans(n)[n.len() - 1]);
        assert(spans(m)[m.len() - 2] == spans(n)[n.len() - 2]);
    }
}

/// The holes between consecutive sessions, summed: from the end of each
/// session to the start of the next.
pub open spec fn holes(m: Seq<(int, int, Seq<usize>)>) -> int
    decreases m.len(),
{
    if m.len() <= 1 {
        0
    } else {
        holes(m.drop_last()) + m.last().0 - m[m.len() - 2].1
    }
}

/// Taking intervals in any order, the last session reaches as far as the
/// intervals do, and the pauses counted against the furthest end are the
/// holes between the sessions.
proof fn lemma_gaps_are_holes(t: Seq<(i32, i32, usize)>)
    requires
        forall|k: int| 0 <= k < t.len() ==> (#[trigger] t[k]).0 <= t[k].1,
    ensures
        t.len() > 0 ==> merged(t).len() > 0 && merged(t).last().1 == reach(t),
        gaps_of(t) == holes(merged(t)),
    decreases t.len(),
{
    if t.len() > 0 {
        let u = t.drop_last();
        assert forall|k: int| 0 <= k < u.len() implies (#[trigger] u[k]).0 <= u[k].1 by {
            assert(u[k] == t[k]);
        }
        lemma_gaps_are_holes(u);
        let m = merged(u);
        let x = t.last();
        assert(x == t[t.len() - 1]);
        let r = merged(t);
        if u.len() == 0 {
            assert(r =~= seq![(x.0 as int, x.1 as int, seq![x.2])]);
        } else if x.0 <= m.last().1 {
            assert(r.len() == m.len());
            if m.len() > 1 {
                assert(r.drop_last() =~= m.drop_last());
                assert(r[r.len() - 2] == m[m.len() - 2]);
            }
        } else {
            assert(r.drop_last() =~= m);
            assert(r[r.len() - 2] == m.last());
        }
    }
}

/// The pauses of a day are the holes between its seamless sessions: from the
/// end of each session to the start of the next, summed.
pub proof fn pauses_are_the_holes_between_sessions(iv: Seq<(i32, i32)>)
    requires
        forall|k: int| 0 <= k < iv.len() ==> (#[trigger] iv[k]).0 <= iv[k].1,
    ensures
        gaps_in(iv) == holes(sessions_of(iv)),
        gaps_in(iv) >= 0,
{
    let t = tagged(iv);
    assert(all_within(t, i32::MIN as int, i32::MAX as int)) by {
        assert forall|k: int| 0 <= k < t.len() implies i32::MIN <= #[trigger] t[k].0 <= t[k].1 <= i32::MAX by {
            assert(t[k].0 == iv[k].0 && t[k].1 == iv[k].1);
        }
    }
    lemma_sort_props(t, i32::MIN as int, i32::MAX as int);
    let st = sort_by_start(t);
    assert forall|k: int| 0 <= k < st.len() implies (#[trigger] st[k]).0 <= st[k].1 by {}
    lemma_gaps_are_holes(st);
    lemma_gaps_nonneg(st);
}

/// Total of the pauses between intervals, in the order the clock ran.
///
/// Each pause is measured against the furthest end reached so far, not
/// against the previous interval by start: an interval nested inside a longer
/// one leaves no pause behind, and the pause after it starts where the longer
/// one ended.
pub fn gaps_between(intervals: &[(i32, i32)]) -> (r: Minutes)
    requires
        gaps_in(intervals@) <= i32::MAX,
    ensures
        r.0 == gaps_in(intervals@),
{
    let iv = by_start(intervals);
    let ghost t = iv@;
    if iv.len() == 0 {
        return Minutes(0);
    }
    let mut gaps: i64 = 0;
    let mut max_end: i32 = iv[0].1;
    let mut k: usize = 1;
    proof {
        assert(t.take(1).len() == 1);
        assert(t.take(1)[0] == t[0]);
    }
    while k < iv.len()
        invariant
            1 <= k <= iv.len(),
            t == iv@,
            gaps_of(t) <= i32::MAX,
            gaps == gaps_of(t.take(k as int)),
            max_end == reach(t.take(k as int)),
        decreases iv.len() - k,
    {
        let (s, e, _) = iv[k];
        proof {
            let u = t.take(k + 1);
            assert(u.drop_last() =~= t.take(k as int));
            assert(u.last() == t[k as int]);
            lemma_gaps_grow(t, k + 1);
        }
        let pause: i64 = s as i64 - max_end as i64;
        if pause > 0 {
            gaps = gaps + pause;
        }
        if max_end < e {
            max_end = e;
        }
        k += 1;
    }
    proof {
        assert(t.take(t.len() as int) =~= t);
        lemma_gaps_nonneg(t);
    }
    Minutes(gaps as i32)
}


// ---------------------------------------------------------------------------
// Entries
// ---------------------------------------------------------------------------

/// The intervals of a day's entries, see [`Entry::iv`].
pub open spec fn entry_intervals(e: Seq<Entry>) -> Seq<(i32, i32)> {
    Seq::new(e.len(), |k: int| (e[k].iv().0 as i32, e[k].iv().1 as i32))
}

/// What the clock times of entries guarantee: every entry starts before
/// 1440, runs at least a minute and at most a day.
pub open spec fn entries_sane(e: Seq<Entry>) -> bool {
    forall|k: int|
        0 <= k < e.len() ==> 0 <= #[trigger] e[k].iv().0 < 1440 && e[k].iv().0 < e[k].iv().1 <= e[k].iv().0
            + 1440
}

proof fn lemma_fits(x: int)
    requires
        i32::MIN <= x <= i32::MAX,
    ensures
        (x as i32) as int == x,
{
}

/// Entry intervals start at 0 or later and end by 2880.
pub proof fn lemma_sane_within(e: Seq<Entry>)
    requires
        entries_sane(e),
    ensures
        all_within(tagged(entry_intervals(e)), 0, 2880),
{
    let t = tagged(entry_intervals(e));
    assert forall|k: int| 0 <= k < t.len() implies 0 <= #[trigger] t[k].0 <= t[k].1 <= 2880 by {
        assert(0 <= e[k].iv().0 < 1440 && e[k].iv().0 < e[k].iv().1 <= e[k].iv().0 + 1440);
        lemma_fits(e[k].iv().0);
        lemma_fits(e[k].iv().1);
    }
}

/// The intervals of the entries, in their order.
pub fn intervals_of(entries: &[Entry]) -> (r: Vec<(i32, i32)>)
    ensures
        r@ == entry_intervals(entries@),
        entries_sane(entries@),
{
    let mut r: Vec<(i32, i32)> = Vec::new();
    let mut i: usize = 0;
    while i < entries.len()
        invariant
            i <= entries.len(),
            r@ == entry_intervals(entries@).take(i as int),
            forall|k: int|
                0 <= k < i ==> 0 <= #[trigger] entries@[k].iv().0 < 1440 && entries@[k].iv().0
                    < entries@[k].iv().1 <= entries@[k].iv().0 + 1440,
        decreases entries.len() - i,
    {
        let iv = entries[i].interval();
        r.push(iv);
        i += 1;
        proof {
            assert(r@ =~= entry_intervals(entries@).take(i as int));
        }
    }
    proof {
        assert(entry_intervals(entries@).take(entries@.len() as int) =~= entry_intervals(entries@));
    }
    r
}

/// Total of the pauses between consecutive entries, in the order the clock
/// ran: entries are taken as intervals (one that ends at or before it starts
/// runs past midnight) sorted by start, and a pause is never negative.
pub fn recorded_gaps(entries: &[Entry]) -> (r: Minutes)
    ensures
        r.0 == gaps_in(entry_intervals(entries@)),
        0 <= r.0 <= 2880,
{
    let iv = intervals_of(entries);
    proof {
        let t = tagged(entry_intervals(entries@));
        lemma_sane_within(entries@);
        lemma_sort_props(t, 0, 2880);
        if t.len() > 0 {
            lemma_gaps_bound(sort_by_start(t), 0, 2880);
        }
    }
    gaps_between(&iv)
}

pub open spec fn min(a: int, b: int) -> int {
    if a < b {
        a
    } else {
        b
    }
}

/// The first pass over a session's entries, in clock order: each share given
/// by hand is paid, capped by the entry's gross and by what is left of the
/// budget `b`. The payments, and what is left.
pub open spec fn by_hand(g: Seq<int>, sh: Seq<Option<Minutes>>, b: int) -> (Seq<int>, int)
    decreases g.len(),
{
    if g.len() == 0 {
        (Seq::empty(), b)
    } else {
        let prev = by_hand(g.drop_last(), sh.drop_last(), b);
        let pay = match sh[g.len() - 1] {
            Some(s) => min(max(s.0 as int, 0), max(min(g.last(), prev.1), 0)),
            None => 0,
        };
        (prev.0.push(pay), prev.1 - pay)
    }
}

/// The second pass, from the entry worked last backwards: an entry without a
/// share takes on as much of the budget `b` as its gross allows.
pub open spec fn by_default(g: Seq<int>, sh: Seq<Option<Minutes>>, b: int) -> (Seq<int>, int)
    decreases g.len(),
{
    if g.len() == 0 {
        (Seq::empty(), b)
    } else {
        let pay = if sh[g.len() - 1] is None {
            min(max(g.last(), 0), max(b, 0))
        } else {
            0
        };
        let rest = by_default(g.drop_last(), sh.drop_last(), b - pay);
        (rest.0.push(pay), rest.1)
    }
}

/// The last pass, from the entry worked last backwards: whatever is still
/// left of `b` goes where the entries still have room `c`.
pub open spec fn leftover(c: Seq<int>, b: int) -> (Seq<int>, int)
    decreases c.len(),
{
    if c.len() == 0 {
        (Seq::empty(), b)
    } else {
        let pay = min(max(c.last(), 0), max(b, 0));
        let rest = leftover(c.drop_last(), b - pay);
        (rest.0.push(pay), rest.1)
    }
}

/// What each entry of a session pays of the session's deduction `d`: its
/// share given by hand, then the rest on the entries without one from the
/// last backwards, then what is still left wherever there is room; what no
/// entry has room for falls on the entry worked last, whose net then goes
/// below zero. The shares add up to the deduction exactly.
pub open spec fn session_pays(g: Seq<int>, sh: Seq<Option<Minutes>>, d: int) -> Seq<int> {
    let p1 = by_hand(g, sh, d);
    let p2 = by_default(g, sh, p1.1);
    let p3 = leftover(Seq::new(g.len(), |j: int| g[j] - p1.0[j] - p2.0[j]), p2.1);
    let rest = max(p3.1, 0);
    Seq::new(
        g.len(),
        |j: int|
            p1.0[j] + p2.0[j] + p3.0[j] + if j == g.len() - 1 {
                rest
            } else {
                0
            },
    )
}

/// `v` with `vals[j]` written at position `pos[j]`, for each `j` in turn.
pub open spec fn update_at(v: Seq<int>, pos: Seq<usize>, vals: Seq<int>) -> Seq<int>
    decreases pos.len(),
{
    if pos.len() == 0 {
        v
    } else {
        update_at(v, pos.drop_last(), vals.drop_last()).update(pos.last() as int, vals.last())
    }
}

/// The grosses of a session's member entries.
pub open spec fn member_grosses(e: Seq<Entry>, m: Seq<usize>) -> Seq<int> {
    Seq::new(m.len(), |j: int| e[m[j] as int].len())
}

/// The shares given by hand of a session's member entries.
pub open spec fn member_shares(e: Seq<Entry>, m: Seq<usize>) -> Seq<Option<Minutes>> {
    Seq::new(m.len(), |j: int| e[m[j] as int].break_share)
}

/// The nets of a session's members: gross minus what each pays.
pub open spec fn member_nets(e: Seq<Entry>, s: (int, int, Seq<usize>), t: Seq<BreakTier>) -> Seq<int> {
    let g = member_grosses(e, s.2);
    let p = session_pays(g, member_shares(e, s.2), tier_deduction(t, s.1 - s.0));
    Seq::new(s.2.len(), |j: int| g[j] - p[j])
}

/// `v` with the nets of the sessions `ss` written at their entries.
pub open spec fn apply_sessions(
    e: Seq<Entry>,
    ss: Seq<(int, int, Seq<usize>)>,
    t: Seq<BreakTier>,
    v: Seq<int>,
) -> Seq<int>
    decreases ss.len(),
{
    if ss.len() == 0 {
        v
    } else {
        update_at(apply_sessions(e, ss.drop_last(), t, v), ss.last().2, member_nets(e, ss.last(), t))
    }
}

/// The grosses of the entries.
pub open spec fn grosses(e: Seq<Entry>) -> Seq<int> {
    Seq::new(e.len(), |i: int| e[i].len())
}

/// The net of every entry of a day: its gross minus its part of its
/// session's deduction.
pub open spec fn nets_of(e: Seq<Entry>, t: Seq<BreakTier>) -> Seq<int> {
    apply_sessions(e, sessions_of(entry_intervals(e)), t, grosses(e))
}


/// The values of a list of `i64`.
pub open spec fn ints(v: Seq<i64>) -> Seq<int> {
    Seq::new(v.len(), |j: int| v[j] as int)
}

/// The sum of a list of numbers.
pub open spec fn total(s: Seq<int>) -> int
    decreases s.len(),
{
    if s.len() == 0 {
        0
    } else {
        total(s.drop_last()) + s.last()
    }
}

/// Nothing is below zero.
pub open spec fn nonneg(s: Seq<int>) -> bool {
    forall|j: int| 0 <= j < s.len() ==> 0 <= #[trigger] s[j]
}

/// The first pass pays each entry at most its gross and only where a share
/// was given, and what it pays is what leaves the budget.
pub proof fn lemma_by_hand(g: Seq<int>, sh: Seq<Option<Minutes>>, b: int)
    requires
        g.len() == sh.len(),
        nonneg(g),
    ensures
        by_hand(g, sh, b).0.len() == g.len(),
        forall|j: int|
            0 <= j < g.len() ==> 0 <= #[trigger] by_hand(g, sh, b).0[j] <= g[j] && (sh[j] is None
                ==> by_hand(g, sh, b).0[j] == 0),
        b >= 0 ==> 0 <= by_hand(g, sh, b).1 <= b,
        b < 0 ==> by_hand(g, sh, b).1 == b,
        total(by_hand(g, sh, b).0) == b - by_hand(g, sh, b).1,
    decreases g.len(),
{
    if g.len() > 0 {
        let u = g.drop_last();
        let v = sh.drop_last();
        assert forall|j: int| 0 <= j < u.len() implies 0 <= #[trigger] u[j] by {
            assert(u[j] == g[j]);
        }
        lemma_by_hand(u, v, b);
        let r = by_hand(g, sh, b);
        let prev = by_hand(u, v, b);
        assert(r.0.drop_last() =~= prev.0);
        assert(g.last() == g[g.len() - 1]);
        assert forall|j: int| 0 <= j < g.len() implies 0 <= #[trigger] r.0[j] <= g[j] && (sh[j] is None
            ==> r.0[j] == 0) by {
            if j < g.len() - 1 {
                assert(r.0[j] == prev.0[j]);
                assert(u[j] == g[j]);
                assert(v[j] == sh[j]);
            }
        }
    }
}

/// The second pass pays each entry at most its gross and only where no share
/// was given, and what it pays is what leaves the budget.
pub proof fn lemma_by_default(g: Seq<int>, sh: Seq<Option<Minutes>>, b: int)
    requires
        g.len() == sh.len(),
        nonneg(g),
    ensures
        by_default(g, sh, b).0.len() == g.len(),
        forall|j: int|
            0 <= j < g.len() ==> 0 <= #[trigger] by_default(g, sh, b).0[j] <= g[j] && (sh[j] is Some
                ==> by_default(g, sh, b).0[j] == 0),
        b >= 0 ==> 0 <= by_default(g, sh, b).1 <= b,
        b < 0 ==> by_default(g, sh, b).1 == b,
        total(by_default(g, sh, b).0) == b - by_default(g, sh, b).1,
    decreases g.len(),
{
    if g.len() > 0 {
        let u = g.drop_last();
        let v = sh.drop_last();
        assert forall|j: int| 0 <= j < u.len() implies 0 <= #[trigger] u[j] by {
            assert(u[j] == g[j]);
        }
        assert(g.last() == g[g.len() - 1]);
        let pay = if sh[g.len() - 1] is None {
            min(max(g.last(), 0), max(b, 0))
        } else {
            0
        };
        lemma_by_default(u, v, b - pay);
        let r = by_default(g, sh, b);
        let rest = by_default(u, v, b - pay);
        assert(r.0.drop_last() =~= rest.0);
        assert forall|j: int| 0 <= j < g.len() implies 0 <= #[trigger] r.0[j] <= g[j] && (sh[j] is Some
            ==> r.0[j] == 0) by {
            if j < g.len() - 1 {
                assert(r.0[j] == rest.0[j]);
                assert(u[j] == g[j]);
                assert(v[j] == sh[j]);
            }
        }
    }
}

/// The room left above zero, summed.
pub open spec fn room(c: Seq<int>) -> int
    decreases c.len(),
{
    if c.len() == 0 {
        0
    } else {
        room(c.drop_last()) + max(c.last(), 0)
    }
}

proof fn lemma_room_nonneg(c: Seq<int>)
    ensures
        room(c) >= 0,
    decreases c.len(),
{
    if c.len() > 0 {
        lemma_room_nonneg(c.drop_last());
    }
}

/// The last pass pays each entry at most its room, and leaves only what no
/// room could take.
pub proof fn lemma_leftover(c: Seq<int>, b: int)
    ensures
        leftover(c, b).0.len() == c.len(),
        forall|j: int| 0 <= j < c.len() ==> 0 <= #[trigger] leftover(c, b).0[j] <= max(c[j], 0),
        b >= 0 ==> leftover(c, b).1 == max(0, b - room(c)),
        b < 0 ==> leftover(c, b).1 == b,
        total(leftover(c, b).0) == b - leftover(c, b).1,
    decreases c.len(),
{
    lemma_room_nonneg(c);
    if c.len() > 0 {
        lemma_room_nonneg(c.drop_last());
        let u = c.drop_last();
        assert(c.last() == c[c.len() - 1]);
        let pay = min(max(c.last(), 0), max(b, 0));
        lemma_leftover(u, b - pay);
        let r = leftover(c, b);
        let rest = leftover(u, b - pay);
        assert(r.0.drop_last() =~= rest.0);
        assert forall|j: int| 0 <= j < c.len() implies 0 <= #[trigger] r.0[j] <= max(c[j], 0) by {
            if j < c.len() - 1 {
                assert(r.0[j] == rest.0[j]);
                assert(u[j] == c[j]);
            }
        }
    }
}

/// What the three passes pay, in `i64`.
fn pays_for(g: &Vec<i64>, sh: &Vec<Option<Minutes>>, d: i64) -> (r: Vec<i64>)
    requires
        g.len() == sh.len(),
        forall|j: int| 0 <= j < g.len() ==> 0 <= #[trigger] g@[j] <= 1440,
        i32::MIN <= d <= i32::MAX,
    ensures
        r@.len() == g@.len(),
        ints(r@) == session_pays(ints(g@), sh@, d as int),
{
    let n = g.len();
    let ghost gs = ints(g@);
    proof {
        assert forall|j: int| 0 <= j < gs.len() implies 0 <= #[trigger] gs[j] by {}
        lemma_by_hand(gs, sh@, d as int);
    }
    let ghost s1 = by_hand(gs, sh@, d as int);
    // first pass, in clock order
    let mut p1: Vec<i64> = Vec::new();
    let mut b: i64 = d;
    let mut j: usize = 0;
    while j < n
        invariant
            j <= n == g.len() == sh.len() == gs.len(),
            gs == ints(g@),
            forall|k: int| 0 <= k < g.len() ==> 0 <= #[trigger] g@[k] <= 1440,
            ints(p1@) == by_hand(gs.take(j as int), sh@.take(j as int), d as int).0,
            b == by_hand(gs.take(j as int), sh@.take(j as int), d as int).1,
            i32::MIN <= d <= i32::MAX,
            d >= 0 ==> 0 <= b <= d,
            d < 0 ==> b == d,
        decreases n - j,
    {
        proof {
            assert(gs.take(j + 1).drop_last() =~= gs.take(j as int));
            assert(sh@.take(j + 1).drop_last() =~= sh@.take(j as int));
            assert(gs.take(j + 1).last() == g@[j as int]);
            assert(sh@.take(j + 1)[j as int] == sh@[j as int]);
        }
        let pay: i64 = match sh[j] {
            Some(s) => {
                let cap = if g[j] < b {
                    g[j]
                } else {
                    b
                };
                let cap = if cap < 0 {
                    0
                } else {
                    cap
                };
                let want = if s.0 < 0 {
                    0
                } else {
                    s.0 as i64
                };
                if want < cap {
                    want
                } else {
                    cap
                }
            },
            None => 0,
        };
        p1.push(pay);
        b = b - pay;
        j += 1;
        proof {
            assert(ints(p1@) =~= by_hand(gs.take(j as int), sh@.take(j as int), d as int).0);
        }
    }
    proof {
        assert(gs.take(n as int) =~= gs);
        assert(sh@.take(n as int) =~= sh@);
        lemma_by_default(gs, sh@, s1.1);
    }
    let ghost s2 = by_default(gs, sh@, s1.1);
    // second pass, from the entry worked last backwards
    let mut p2: Vec<i64> = Vec::new();
    let mut k: usize = 0;
    while k < n
        invariant
            k <= n == g.len(),
            p2@.len() == k,
        decreases n - k,
    {
        p2.push(0);
        k += 1;
    }
    let mut j: usize = n;
    while j > 0
        invariant
            j <= n == g.len() == sh.len() == gs.len() == p2@.len(),
            gs == ints(g@),
            forall|k: int| 0 <= k < g.len() ==> 0 <= #[trigger] g@[k] <= 1440,
            by_default(gs.take(j as int), sh@.take(j as int), b as int) == (s2.0.take(j as int), s2.1),
            forall|k: int| j <= k < n ==> p2@[k] == s2.0[k],
            s2.0.len() == n,
            i32::MIN <= d <= i32::MAX,
            d >= 0 ==> 0 <= b <= d,
            d < 0 ==> b == d,
        decreases j,
    {
        let ghost bj = b;
        let gj = g[j - 1];
        let pay: i64 = if sh[j - 1].is_none() {
            let room = if b < 0 {
                0
            } else {
                b
            };
            if gj < room {
                gj
            } else {
                room
            }
        } else {
            0
        };
        proof {
            let gt = gs.take(j as int);
            let st = sh@.take(j as int);
            assert(gt.drop_last() =~= gs.take(j - 1));
            assert(st.drop_last() =~= sh@.take(j - 1));
            assert(gt.last() == gj);
            assert(st[j - 1] == sh@[j - 1]);
            let rest = by_default(gs.take(j - 1), sh@.take(j - 1), bj - pay);
            assert(by_default(gt, st, bj as int) == (rest.0.push(pay as int), rest.1));
            assert(rest.0.push(pay as int) == s2.0.take(j as int));
            assert(rest.0 =~= s2.0.take(j as int).drop_last());
            assert(s2.0.take(j as int).drop_last() =~= s2.0.take(j - 1));
            assert(s2.0.take(j as int)[j - 1] == s2.0[j - 1]);
        }
        p2.set(j - 1, pay);
        b = b - pay;
        j -= 1;
    }
    proof {
        assert(gs.take(0) =~= Seq::<int>::empty());
        assert(s2.1 == b);
        lemma_by_hand(gs, sh@, d as int);
        lemma_by_default(gs, sh@, s1.1);
        assert(ints(p1@) == s1.0);
        assert forall|i: int| 0 <= i < n implies 0 <= #[trigger] p1@[i] <= g@[i] by {
            assert(ints(p1@)[i] == p1@[i]);
            assert(gs[i] == g@[i]);
        }
        assert forall|i: int| 0 <= i < n implies 0 <= #[trigger] p2@[i] <= g@[i] by {
            assert(gs[i] == g@[i]);
        }
    }
    // what every entry still has room for
    let mut c: Vec<i64> = Vec::new();
    let mut k: usize = 0;
    while k < n
        invariant
            k <= n == g.len() == p1@.len() == p2@.len(),
            c@.len() == k,
            forall|i: int| 0 <= i < k ==> c@[i] == g@[i] - p1@[i] - p2@[i],
            forall|i: int| 0 <= i < n ==> 0 <= #[trigger] g@[i] <= 1440,
            forall|i: int| 0 <= i < n ==> 0 <= #[trigger] p1@[i] <= g@[i],
            forall|i: int| 0 <= i < n ==> 0 <= #[trigger] p2@[i] <= g@[i],
        decreases n - k,
    {
        c.push(g[k] - p1[k] - p2[k]);
        k += 1;
    }
    let ghost cs = Seq::new(gs.len(), |i: int| gs[i] - s1.0[i] - s2.0[i]);
    proof {
        assert(ints(c@) =~= cs);
        lemma_leftover(cs, s2.1);
    }
    let ghost s3 = leftover(cs, s2.1);
    proof {
        assert(cs.take(n as int) =~= cs);
        assert(s3.0.take(n as int) =~= s3.0);
        assert forall|i: int| 0 <= i < n implies -2880 <= #[trigger] c@[i] <= 1440 by {
            assert(ints(c@)[i] == c@[i]);
        }
    }
    let mut p3: Vec<i64> = Vec::new();
    let mut k: usize = 0;
    while k < n
        invariant
            k <= n,
            p3@.len() == k,
        decreases n - k,
    {
        p3.push(0);
        k += 1;
    }
    let mut j: usize = n;
    while j > 0
        invariant
            j <= n == c@.len() == p3@.len() == cs.len(),
            ints(c@) == cs,
            leftover(cs.take(j as int), b as int) == (s3.0.take(j as int), s3.1),
            forall|k: int| j <= k < n ==> p3@[k] == s3.0[k],
            s3.0.len() == n,
            forall|i: int| 0 <= i < n ==> -2880 <= #[trigger] c@[i] <= 1440,
            d >= 0 ==> 0 <= b <= d,
            d < 0 ==> b == d,
            i32::MIN <= d <= i32::MAX,
        decreases j,
    {
        let ghost bj = b;
        let cj = c[j - 1];
        let room = if cj < 0 {
            0
        } else {
            cj
        };
        let avail = if b < 0 {
            0
        } else {
            b
        };
        let pay = if room < avail {
            room
        } else {
            avail
        };
        proof {
            let ct = cs.take(j as int);
            assert(ct.drop_last() =~= cs.take(j - 1));
            assert(ct.last() == cj);
            let rest = leftover(cs.take(j - 1), bj - pay);
            assert(leftover(ct, bj as int) == (rest.0.push(pay as int), rest.1));
            assert(rest.0 =~= s3.0.take(j as int).drop_last());
            assert(s3.0.take(j as int).drop_last() =~= s3.0.take(j - 1));
            assert(s3.0.take(j as int)[j - 1] == s3.0[j - 1]);
        }
        p3.set(j - 1, pay);
        b = b - pay;
        j -= 1;
    }
    proof {
        assert(cs.take(0) =~= Seq::<int>::empty());
    }
    let rest: i64 = if b > 0 {
        b
    } else {
        0
    };
    let mut r: Vec<i64> = Vec::new();
    let mut k: usize = 0;
    while k < n
        invariant
            k <= n == p1@.len() == p2@.len() == p3@.len(),
            r@.len() == k,
            0 <= rest <= i32::MAX,
            forall|i: int|
                0 <= i < k ==> r@[i] == p1@[i] + p2@[i] + p3@[i] + if i == n - 1 {
                    rest as int
                } else {
                    0
                },
            forall|i: int| 0 <= i < n ==> 0 <= #[trigger] p1@[i] <= 1440,
            forall|i: int| 0 <= i < n ==> 0 <= #[trigger] p2@[i] <= 1440,
            forall|i: int| 0 <= i < n ==> 0 <= #[trigger] p3@[i] <= 1440,
        decreases n - k,
    {
        let extra: i64 = if k == n - 1 {
            rest
        } else {
            0
        };
        r.push(p1[k] + p2[k] + p3[k] + extra);
        k += 1;
    }
    proof {
        assert(ints(r@) =~= session_pays(gs, sh@, d as int));
    }
    r
}


/// Every entry of a session pays nothing or more, and no more than its
/// gross, but for the entry worked last, which may pay up to the whole
/// deduction on top.
pub proof fn lemma_session_pays_bounds(g: Seq<int>, sh: Seq<Option<Minutes>>, d: int)
    requires
        g.len() == sh.len(),
        nonneg(g),
    ensures
        session_pays(g, sh, d).len() == g.len(),
        forall|j: int|
            0 <= j < g.len() ==> 0 <= #[trigger] session_pays(g, sh, d)[j] <= g[j] + if j == g.len() - 1 {
                max(d, 0)
            } else {
                0
            },
{
    let p1 = by_hand(g, sh, d);
    let p2 = by_default(g, sh, p1.1);
    let c = Seq::new(g.len(), |j: int| g[j] - p1.0[j] - p2.0[j]);
    lemma_by_hand(g, sh, d);
    lemma_by_default(g, sh, p1.1);
    lemma_leftover(c, p2.1);
    lemma_room_nonneg(c);
    let p3 = leftover(c, p2.1);
    assert(max(p3.1, 0) <= max(d, 0));
    let p = session_pays(g, sh, d);
    assert forall|j: int| 0 <= j < g.len() implies 0 <= #[trigger] p[j] <= g[j] + if j == g.len() - 1 {
        max(d, 0)
    } else {
        0
    } by {
        assert(0 <= p1.0[j] <= g[j]);
        assert(0 <= p2.0[j] <= g[j]);
        assert(c[j] == g[j] - p1.0[j] - p2.0[j]);
        assert(0 <= leftover(c, p2.1).0[j] <= max(c[j], 0));
    }
}

/// The minutes of a list of durations.
pub open spec fn minutes_seq(v: Seq<Minutes>) -> Seq<int> {
    Seq::new(v.len(), |i: int| v[i].0 as int)
}

/// The net of every entry of a day: its gross minus its part of its
/// session's deduction, aligned with `entries`.
///
/// A session's deduction is shared out over its entries and charged in
/// full: first each share given by hand, then what is left falls on the
/// entries without one, the entry worked last first; what even that leaves
/// goes wherever an entry still has room, again from the last backwards; and
/// what no entry has room for falls on the entry worked last, whose net then
/// goes below zero. The shares add up to the deduction, so the nets add up
/// to the day's gross less what its sessions lose.
pub fn entry_nets(entries: &[Entry], tiers: &[BreakTier]) -> (r: Vec<Minutes>)
    ensures
        minutes_seq(r@) == nets_of(entries@, tiers@),
        entries_sane(entries@),
{
    let n = entries.len();
    let iv = intervals_of(entries);
    let sorted = by_start(&iv);
    let (spans, members) = runs(&sorted);
    let ghost e = entries@;
    let ghost ss = sessions_of(entry_intervals(e));
    proof {
        lemma_sane_within(e);
        lemma_sort_props(tagged(iv@), 0, 2880);
        lemma_merged_bounds(sorted@, 0, 2880, n as int);
        lemma_tagged_tags(iv@);
        lemma_sort_tags(tagged(iv@), n as int);
    }
    let mut out: Vec<Minutes> = Vec::new();
    let mut i: usize = 0;
    while i < n
        invariant
            i <= n == entries.len(),
            e == entries@,
            minutes_seq(out@) == grosses(e).take(i as int),
        decreases n - i,
    {
        let du = entries[i].duration();
        proof {
            assert(minutes_seq(out@).len() == out@.len());
            assert(out@.len() == i);
        }
        out.push(du);
        proof {
            assert(du.0 == grosses(e)[i as int]);
            assert forall|q: int| 0 <= q < i implies #[trigger] minutes_seq(out@)[q] == grosses(e)[q] by {
                assert(minutes_seq(out@)[q] == out@[q].0);
                assert(grosses(e).take(i as int)[q] == grosses(e)[q]);
            }
        }
        i += 1;
        proof {
            assert(minutes_seq(out@) =~= grosses(e).take(i as int));
        }
    }
    proof {
        assert(grosses(e).take(n as int) =~= grosses(e));
    }
    let mut k: usize = 0;
    while k < spans.len()
        invariant
            k <= spans@.len() == members@.len() == ss.len(),
            n == entries.len() == out@.len(),
            e == entries@,
            ss == merged(sorted@),
            entries_sane(e),
            forall|q: int| 0 <= q < ss.len() ==> (#[trigger] spans@[q]).0 == ss[q].0 && spans@[q].1 == ss[q].1,
            forall|q: int| 0 <= q < ss.len() ==> (#[trigger] members@[q])@ == ss[q].2,
            forall|q: int| 0 <= q < ss.len() ==> 0 <= #[trigger] ss[q].0 <= ss[q].1 <= 2880,
            forall|q: int, j: int| 0 <= q < ss.len() && 0 <= j < ss[q].2.len() ==> #[trigger] ss[q].2[j] < n,
            minutes_seq(out@) == apply_sessions(e, ss.take(k as int), tiers@, grosses(e)),
        decreases spans.len() - k,
    {
        let (a, b) = spans[k];
        let d = deduction(Minutes(b - a), tiers);
        let m = &members[k];
        let ghost mk = ss[k as int];
        let mut g: Vec<i64> = Vec::new();
        let mut sh: Vec<Option<Minutes>> = Vec::new();
        let mut j: usize = 0;
        while j < m.len()
            invariant
                j <= m@.len(),
                m@ == mk.2,
                n == entries.len(),
                e == entries@,
                forall|j: int| 0 <= j < mk.2.len() ==> #[trigger] mk.2[j] < n,
                ints(g@) == member_grosses(e, m@).take(j as int),
                sh@ == member_shares(e, m@).take(j as int),
                forall|q: int| 0 <= q < g@.len() ==> 0 <= #[trigger] g@[q] <= 1440,
            decreases m.len() - j,
        {
            let idx = m[j];
            let du = entries[idx].duration();
            proof {
                assert(ints(g@).len() == g@.len());
                assert(g@.len() == j);
            }
            g.push(du.0 as i64);
            sh.push(entries[idx].break_share);
            proof {
                assert(du.0 == member_grosses(e, m@)[j as int]);
                assert forall|q: int| 0 <= q < j implies #[trigger] ints(g@)[q] == member_grosses(e, m@)[q] by {
                    assert(ints(g@)[q] == g@[q]);
                    assert(member_grosses(e, m@).take(j as int)[q] == member_grosses(e, m@)[q]);
                }
            }
            j += 1;
            proof {
                assert(ints(g@) =~= member_grosses(e, m@).take(j as int));
                assert(sh@ =~= member_shares(e, m@).take(j as int));
            }
        }
        proof {
            assert(member_grosses(e, m@).take(m@.len() as int) =~= member_grosses(e, m@));
            assert(member_shares(e, m@).take(m@.len() as int) =~= member_shares(e, m@));
            lemma_session_pays_bounds(ints(g@), sh@, d.0 as int);
        }
        let pays = pays_for(&g, &sh, d.0 as i64);
        proof {
            assert forall|q: int| 0 <= q < m@.len() implies 0 <= #[trigger] pays@[q] <= g@[q] + 0x7fff_ffff && g@[q] <= 1440 by {
                assert(ints(pays@)[q] == pays@[q]);
                assert(ints(g@)[q] == g@[q]);
            }
        }
        let ghost prev = minutes_seq(out@);
        let ghost nets = member_nets(e, mk, tiers@);
        proof {
            assert(mk.1 - mk.0 == b - a);
            assert forall|q: int| 0 <= q < m@.len() implies #[trigger] nets[q] == g@[q] - pays@[q] by {
                assert(ints(pays@)[q] == pays@[q]);
                assert(ints(g@)[q] == g@[q]);
            }
        }
        let mut j: usize = 0;
        while j < m.len()
            invariant
                j <= m@.len() == g@.len() == pays@.len() == nets.len(),
                m@ == mk.2,
                n == out@.len(),
                forall|q: int| 0 <= q < mk.2.len() ==> #[trigger] mk.2[q] < n,
                forall|q: int| 0 <= q < m@.len() ==> #[trigger] nets[q] == g@[q] - pays@[q],
                forall|q: int| 0 <= q < m@.len() ==> 0 <= #[trigger] pays@[q] <= g@[q] + 0x7fff_ffff && g@[q] <= 1440,
                minutes_seq(out@) == update_at(prev, m@.take(j as int), nets.take(j as int)),
            decreases m.len() - j,
        {
            let idx = m[j];
            let v = g[j] - pays[j];
            out.set(idx, Minutes(v as i32));
            j += 1;
            proof {
                let pt = m@.take(j as int);
                let vt = nets.take(j as int);
                assert(pt.drop_last() =~= m@.take(j - 1));
                assert(vt.drop_last() =~= nets.take(j - 1));
                assert(pt.last() == idx);
                assert(vt.last() == v);
                assert(minutes_seq(out@) =~= update_at(prev, m@.take(j - 1), nets.take(j - 1)).update(
                    idx as int,
                    v as int,
                ));
            }
        }
        proof {
            assert(m@.take(m@.len() as int) =~= m@);
            assert(nets.take(m@.len() as int) =~= nets);
            assert(ss.take(k + 1).drop_last() =~= ss.take(k as int));
            assert(ss.take(k + 1).last() == mk);
        }
        k += 1;
    }
    proof {
        assert(ss.take(ss.len() as int) =~= ss);
    }
    out
}

} // verus!
