//! Minutes summed per project name, and the ranking the screens list them
//! in: most minutes first, ties by name.
use crate::breaks::{BreakTier, entries_sane, entry_nets, minutes_seq, nets_of, total};
use crate::minutes::abs;
use crate::sharing::lemma_nets_bounds;
use crate::holidays::name_lt;
use crate::minutes::Minutes;
use crate::text::chars_of;
use crate::types::{Day, Project};
use vstd::prelude::*;

verus! {

/// The minutes booked to name `n` in `w`.
pub open spec fn name_total(w: Seq<(Seq<char>, int)>, n: Seq<char>) -> int
    decreases w.len(),
{
    if w.len() == 0 {
        0
    } else {
        name_total(w.drop_last(), n) + if w.last().0 == n {
            w.last().1
        } else {
            0
        }
    }
}

/// Whether `n` occurs in `w`.
pub open spec fn named(w: Seq<(Seq<char>, int)>, n: Seq<char>) -> bool {
    exists|k: int| 0 <= k < w.len() && #[trigger] w[k].0 == n
}

/// `acc` holds every name of `w` once, with the minutes `w` books to it.
pub open spec fn tallies(acc: Seq<(Seq<char>, int)>, w: Seq<(Seq<char>, int)>) -> bool {
    &&& forall|i: int|
        0 <= i < acc.len() ==> named(w, #[trigger] acc[i].0) && acc[i].1 == name_total(w, acc[i].0)
    &&& forall|i: int, j: int| 0 <= i < j < acc.len() ==> #[trigger] acc[i].0 != #[trigger] acc[j].0
    &&& forall|k: int| 0 <= k < w.len() ==> exists|i: int| 0 <= i < acc.len() && #[trigger] acc[i].0 == #[trigger] w[k].0
}

/// The minutes of `w`.
pub open spec fn amounts(w: Seq<(Seq<char>, int)>) -> Seq<int> {
    Seq::new(w.len(), |k: int| w[k].1)
}

pub open spec fn tally_view(v: Seq<(String, i32)>) -> Seq<(Seq<char>, int)> {
    Seq::new(v.len(), |i: int| (v[i].0@, v[i].1 as int))
}

/// A day's entries as (project, net) pairs.
pub open spec fn day_pairs(d: Day, tiers: Seq<crate::breaks::BreakTier>) -> Seq<(Seq<char>, int)> {
    Seq::new(d.entries@.len(), |k: int| (d.entries@[k].project@, nets_of(d.entries@, tiers)[k]))
}

/// Every entry of the days, in order, as (project, net) pairs.
pub open spec fn worked(days: Seq<Day>, tiers: Seq<crate::breaks::BreakTier>) -> Seq<(Seq<char>, int)>
    decreases days.len(),
{
    if days.len() == 0 {
        Seq::empty()
    } else {
        worked(days.drop_last(), tiers) + day_pairs(days.last(), tiers)
    }
}

proof fn lemma_unnamed_zero(w: Seq<(Seq<char>, int)>, n: Seq<char>)
    requires
        !named(w, n),
    ensures
        name_total(w, n) == 0,
    decreases w.len(),
{
    if w.len() > 0 {
        assert(!named(w.drop_last(), n)) by {
            if named(w.drop_last(), n) {
                let k = choose|k: int| 0 <= k < w.drop_last().len() && #[trigger] w.drop_last()[k].0 == n;
                assert(w[k].0 == n);
            }
        }
        lemma_unnamed_zero(w.drop_last(), n);
        assert(w[w.len() - 1].0 != n);
    }
}

/// The sum of the sizes of some numbers: what bounds every partial sum of
/// them, whatever their signs.
pub open spec fn magnitude(s: Seq<int>) -> int
    decreases s.len(),
{
    if s.len() == 0 {
        0
    } else {
        magnitude(s.drop_last()) + abs(s.last())
    }
}

/// No sum of some numbers is larger in size than their magnitude.
pub proof fn lemma_total_within(s: Seq<int>)
    ensures
        0 <= magnitude(s),
        abs(total(s)) <= magnitude(s),
    decreases s.len(),
{
    if s.len() > 0 {
        lemma_total_within(s.drop_last());
    }
}

/// No name totals more in size than the magnitude of all the amounts.
pub proof fn lemma_name_total_bound(w: Seq<(Seq<char>, int)>, n: Seq<char>)
    ensures
        abs(name_total(w, n)) <= magnitude(amounts(w)),
    decreases w.len(),
{
    if w.len() > 0 {
        assert(amounts(w.drop_last()) =~= amounts(w).drop_last());
        assert(amounts(w).last() == w.last().1);
        lemma_name_total_bound(w.drop_last(), n);
    }
}

/// A prefix of some amounts has no more magnitude than all of them.
pub proof fn lemma_prefix_total(w: Seq<(Seq<char>, int)>, k: int)
    requires
        0 <= k <= w.len(),
    ensures
        0 <= magnitude(amounts(w.take(k))) <= magnitude(amounts(w)),
    decreases w.len() - k,
{
    assert(amounts(w.take(k)) =~= amounts(w).take(k));
    lemma_total_within(amounts(w.take(k)));
    if k == w.len() {
        assert(w.take(k) =~= w);
    } else {
        assert(amounts(w.drop_last()) =~= amounts(w).drop_last());
        lemma_prefix_total(w.drop_last(), k);
        assert(w.drop_last().take(k) =~= w.take(k));
    }
}

/// Adding one pair to what is tallied: the name's sum grows by the amount,
/// or the name joins at the end.
pub proof fn lemma_tally_step(
    acc: Seq<(Seq<char>, int)>,
    w: Seq<(Seq<char>, int)>,
    n: Seq<char>,
    v: int,
    next: Seq<(Seq<char>, int)>,
)
    requires
        tallies(acc, w),
        (exists|i: int|
            0 <= i < acc.len() && acc[i].0 == n && next == acc.update(i, (n, acc[i].1 + v))) || (
        (forall|i: int| 0 <= i < acc.len() ==> acc[i].0 != n) && next == acc.push((n, v))),
    ensures
        tallies(next, w.push((n, v))),
{
    let w2 = w.push((n, v));
    assert(w2.drop_last() =~= w);
    assert forall|x: Seq<char>| named(w, x) implies named(w2, x) by {
        let k = choose|k: int| 0 <= k < w.len() && #[trigger] w[k].0 == x;
        assert(w2[k].0 == x);
    }
    assert(named(w2, n)) by {
        assert(w2[w.len() as int].0 == n);
    }
    assert forall|x: Seq<char>| #[trigger] name_total(w2, x) == name_total(w, x) + if x == n {
        v
    } else {
        0
    } by {}
    if exists|i: int| 0 <= i < acc.len() && acc[i].0 == n && next == acc.update(i, (n, acc[i].1 + v)) {
        let i = choose|i: int|
            0 <= i < acc.len() && acc[i].0 == n && next == acc.update(i, (n, acc[i].1 + v));
        assert forall|j: int| 0 <= j < next.len() implies named(w2, #[trigger] next[j].0) && next[j].1
            == name_total(w2, next[j].0) by {
            if j != i {
                assert(acc[j].0 != acc[i].0);
            }
        }
        assert forall|k: int| 0 <= k < w2.len() implies exists|j: int|
            0 <= j < next.len() && #[trigger] next[j].0 == #[trigger] w2[k].0 by {
            if k < w.len() {
                assert(w2[k] == w[k]);
                let j = choose|j: int| 0 <= j < acc.len() && #[trigger] acc[j].0 == w[k].0;
                assert(next[j].0 == acc[j].0);
            } else {
                assert(next[i].0 == w2[k].0);
            }
        }
    } else {
        assert(forall|i: int| 0 <= i < acc.len() ==> acc[i].0 != n);
        assert(!named(w, n)) by {
            if named(w, n) {
                let k = choose|k: int| 0 <= k < w.len() && #[trigger] w[k].0 == n;
                let i = choose|i: int| 0 <= i < acc.len() && #[trigger] acc[i].0 == #[trigger] w[k].0;
            }
        }
        lemma_unnamed_zero(w, n);
        assert forall|j: int| 0 <= j < next.len() implies named(w2, #[trigger] next[j].0) && next[j].1
            == name_total(w2, next[j].0) by {
            if j < acc.len() {
                assert(next[j] == acc[j]);
            }
        }
        assert forall|k: int| 0 <= k < w2.len() implies exists|j: int|
            0 <= j < next.len() && #[trigger] next[j].0 == #[trigger] w2[k].0 by {
            if k < w.len() {
                assert(w2[k] == w[k]);
                let j = choose|j: int| 0 <= j < acc.len() && #[trigger] acc[j].0 == w[k].0;
                assert(next[j].0 == acc[j].0);
            } else {
                assert(next[acc.len() as int].0 == w2[k].0);
            }
        }
    }
}

/// Add `v` minutes to `name`: onto its sum when it has one, else as a new
/// name at the end.
pub fn tally_add(acc: &mut Vec<(String, i32)>, name: &String, v: i32)
    requires
        forall|i: int|
            0 <= i < old(acc)@.len() ==> i32::MIN <= #[trigger] old(acc)@[i].1 + v <= i32::MAX,
    ensures
        (exists|i: int|
            0 <= i < tally_view(old(acc)@).len() && tally_view(old(acc)@)[i].0 == name@
                && tally_view(final(acc)@) == tally_view(old(acc)@).update(
                i,
                (name@, tally_view(old(acc)@)[i].1 + v),
            )) || ((forall|i: int|
            0 <= i < tally_view(old(acc)@).len() ==> tally_view(old(acc)@)[i].0 != name@)
            && tally_view(final(acc)@) == tally_view(old(acc)@).push((name@, v as int))),
{
    let ghost a0 = tally_view(acc@);
    let mut i: usize = 0;
    while i < acc.len()
        invariant
            i <= acc@.len(),
            acc@ == old(acc)@,
            a0 == tally_view(old(acc)@),
            forall|j: int| 0 <= j < i ==> a0[j].0 != name@,
            forall|j: int|
                0 <= j < old(acc)@.len() ==> i32::MIN <= #[trigger] old(acc)@[j].1 + v <= i32::MAX,
        decreases acc.len() - i,
    {
        if acc[i].0 == *name {
            let s = acc[i].1 + v;
            let n = acc[i].0.clone();
            acc.set(i, (n, s));
            proof {
                assert(tally_view(acc@) =~= a0.update(i as int, (name@, a0[i as int].1 + v)));
            }
            return;
        }
        i += 1;
    }
    acc.push((name.clone(), v));
    proof {
        assert(tally_view(acc@) =~= a0.push((name@, v as int)));
    }
}

/// Whether every day's entries are sane and countable.
pub open spec fn days_sane(days: Seq<Day>) -> bool {
    forall|k: int|
        0 <= k < days.len() ==> entries_sane((#[trigger] days[k]).entries@) && days[k].entries@.len()
            <= usize::MAX
}

/// Every day's entries have sane clock times.
pub fn check_days(days: &[Day])
    ensures
        days_sane(days@),
{
    let mut k: usize = 0;
    while k < days.len()
        invariant
            k <= days@.len(),
            forall|j: int|
                0 <= j < k ==> entries_sane((#[trigger] days@[j]).entries@) && days@[j].entries@.len()
                    <= usize::MAX,
        decreases days.len() - k,
    {
        let _ = crate::breaks::intervals_of(days[k].entries.as_slice());
        let _ = days[k].entries.len();
        k += 1;
    }
}

/// The entries of the first `k` days come first among those of all days.
pub proof fn lemma_worked_prefix(days: Seq<Day>, tiers: Seq<BreakTier>, k: int)
    requires
        0 <= k <= days.len(),
    ensures
        worked(days.take(k), tiers).len() <= worked(days, tiers).len(),
        worked(days, tiers).take(worked(days.take(k), tiers).len() as int) == worked(days.take(k), tiers),
    decreases days.len() - k,
{
    if k == days.len() {
        assert(days.take(k) =~= days);
        assert(worked(days, tiers).take(worked(days, tiers).len() as int) =~= worked(days, tiers));
    } else {
        lemma_worked_prefix(days.drop_last(), tiers, k);
        assert(days.drop_last().take(k) =~= days.take(k));
        let p = worked(days.take(k), tiers);
        let a = worked(days.drop_last(), tiers);
        assert(worked(days, tiers).take(p.len() as int) =~= a.take(p.len() as int));
    }
}

/// Whether the nets of the days' entries, taken by their size, add up to no
/// more than fits in minutes: what every sum over them needs.
pub fn nets_fit(days: &[Day], tiers: &[BreakTier]) -> (r: bool)
    ensures
        r == (magnitude(amounts(worked(days@, tiers@))) <= i32::MAX),
{
    check_days(days);
    let ghost all = worked(days@, tiers@);
    let mut m: i64 = 0;
    let mut k: usize = 0;
    proof {
        assert(days@.take(0) =~= Seq::<Day>::empty());
    }
    while k < days.len()
        invariant
            k <= days@.len(),
            days_sane(days@),
            all == worked(days@, tiers@),
            m == magnitude(amounts(worked(days@.take(k as int), tiers@))),
            0 <= m <= i32::MAX,
        decreases days.len() - k,
    {
        let entries = days[k].entries.as_slice();
        let nets = entry_nets(entries, tiers);
        let ghost base = worked(days@.take(k as int), tiers@);
        let ghost pairs = day_pairs(days@[k as int], tiers@);
        proof {
            lemma_nets_bounds(entries@, tiers@);
            assert(days@.take(k + 1).drop_last() =~= days@.take(k as int));
            assert(days@.take(k + 1).last() == days@[k as int]);
            assert(worked(days@.take(k + 1), tiers@) == base + pairs);
            lemma_worked_prefix(days@, tiers@, k + 1);
            assert((base + pairs).take(base.len() as int) =~= base);
            assert(pairs.take(0) =~= Seq::<(Seq<char>, int)>::empty());
            assert(base + pairs.take(0) =~= base);
        }
        let mut i: usize = 0;
        while i < entries.len()
            invariant
                i <= entries@.len(),
                k < days@.len(),
                nets@.len() == entries@.len(),
                entries@ == days@[k as int].entries@,
                pairs == day_pairs(days@[k as int], tiers@),
                minutes_seq(nets@) == nets_of(entries@, tiers@),
                all == worked(days@, tiers@),
                all.take((base + pairs).len() as int) == base + pairs,
                (base + pairs).len() <= all.len(),
                m == magnitude(amounts(base + pairs.take(i as int))),
                0 <= m <= i32::MAX,
            decreases entries.len() - i,
        {
            let ghost cur = base + pairs.take(i as int);
            let ghost nxt = base + pairs.take(i + 1);
            let v = nets[i].0;
            proof {
                assert(nets@[i as int].0 == minutes_seq(nets@)[i as int]);
                assert(pairs[i as int] == (entries@[i as int].project@, v as int));
                assert(nxt =~= cur.push((entries@[i as int].project@, v as int)));
                assert(amounts(nxt).drop_last() =~= amounts(cur));
                assert(amounts(nxt).last() == v);
            }
            let size: i64 = if v < 0 {
                -(v as i64)
            } else {
                v as i64
            };
            m = m + size;
            if m > 0x7fff_ffff {
                proof {
                    assert(all.take(nxt.len() as int) =~= nxt) by {
                        assert(nxt.len() <= (base + pairs).len());
                        assert(all.take((base + pairs).len() as int).take(nxt.len() as int) =~= all.take(
                            nxt.len() as int,
                        ));
                        assert(all.take((base + pairs).len() as int).take(nxt.len() as int) =~= (base
                            + pairs).take(nxt.len() as int));
                        assert((base + pairs).take(nxt.len() as int) =~= nxt);
                    }
                    lemma_prefix_total(all, nxt.len() as int);
                }
                return false;
            }
            i += 1;
        }
        proof {
            assert(pairs.take(entries@.len() as int) =~= pairs);
        }
        k += 1;
    }
    proof {
        assert(days@.take(days@.len() as int) =~= days@);
    }
    true
}

/// The minutes of the days summed per project, and all of them together.
pub fn tally_days(days: &[Day], tiers: &[BreakTier]) -> (r: (Vec<(String, i32)>, i32))
    requires
        magnitude(amounts(worked(days@, tiers@))) <= i32::MAX,
    ensures
        tallies(tally_view(r.0@), worked(days@, tiers@)),
        r.1 == total(amounts(worked(days@, tiers@))),
{
    check_days(days);
    let ghost all = worked(days@, tiers@);
    let mut acc: Vec<(String, i32)> = Vec::new();
    let mut sum: i32 = 0;
    let mut k: usize = 0;
    proof {
        assert(days@.take(0) =~= Seq::<Day>::empty());
        assert(tally_view(acc@) =~= Seq::<(Seq<char>, int)>::empty());
    }
    while k < days.len()
        invariant
            k <= days@.len(),
            all == worked(days@, tiers@),
            magnitude(amounts(all)) <= i32::MAX,
            tallies(tally_view(acc@), worked(days@.take(k as int), tiers@)),
            sum == total(amounts(worked(days@.take(k as int), tiers@))),
        decreases days.len() - k,
    {
        let entries = days[k].entries.as_slice();
        let _ = entries.len();
        let nets = entry_nets(entries, tiers);
        let ghost base = worked(days@.take(k as int), tiers@);
        let ghost pairs = day_pairs(days@[k as int], tiers@);
        proof {
            lemma_nets_bounds(entries@, tiers@);
            assert(days@.take(k + 1).drop_last() =~= days@.take(k as int));
            assert(days@.take(k + 1).last() == days@[k as int]);
            assert(worked(days@.take(k + 1), tiers@) == base + pairs);
            lemma_worked_prefix(days@, tiers@, k + 1);
            assert((base + pairs).take(base.len() as int) =~= base);
            assert(pairs.take(0) =~= Seq::<(Seq<char>, int)>::empty());
            assert(base + pairs.take(0) =~= base);
        }
        let mut i: usize = 0;
        while i < entries.len()
            invariant
                i <= entries@.len(),
                k < days@.len(),
                nets@.len() == entries@.len(),
                entries@ == days@[k as int].entries@,
                pairs == day_pairs(days@[k as int], tiers@),
                minutes_seq(nets@) == nets_of(entries@, tiers@),
                all == worked(days@, tiers@),
                magnitude(amounts(all)) <= i32::MAX,
                all.take((base + pairs).len() as int) == base + pairs,
                (base + pairs).len() <= all.len(),
                tallies(tally_view(acc@), base + pairs.take(i as int)),
                sum == total(amounts(base + pairs.take(i as int))),
            decreases entries.len() - i,
        {
            let ghost cur = base + pairs.take(i as int);
            let ghost nxt = base + pairs.take(i + 1);
            let v = nets[i].0;
            proof {
                assert(nets@[i as int].0 == minutes_seq(nets@)[i as int]);
                assert(pairs[i as int] == (entries@[i as int].project@, v as int));
                assert(nxt =~= cur.push((entries@[i as int].project@, v as int)));
                assert(all.take(nxt.len() as int) =~= nxt) by {
                    assert(nxt.len() <= (base + pairs).len());
                    assert(all.take((base + pairs).len() as int).take(nxt.len() as int) =~= all.take(
                        nxt.len() as int,
                    ));
                    assert(all.take((base + pairs).len() as int).take(nxt.len() as int) =~= (base
                        + pairs).take(nxt.len() as int));
                    assert((base + pairs).take(nxt.len() as int) =~= nxt);
                }
                lemma_prefix_total(all, nxt.len() as int);
                assert(amounts(nxt).drop_last() =~= amounts(cur));
                assert(amounts(nxt).last() == v);
                lemma_total_within(amounts(cur));
                assert forall|j: int| 0 <= j < tally_view(acc@).len() implies i32::MIN <= #[trigger] acc@[j].1 + v <= i32::MAX by {
                    assert(tally_view(acc@)[j].1 == acc@[j].1);
                    lemma_name_total_bound(cur, tally_view(acc@)[j].0);
                }
            }
            let ghost before = tally_view(acc@);
            tally_add(&mut acc, &entries[i].project, v);
            sum = sum + v;
            proof {
                lemma_tally_step(
                    before,
                    cur,
                    entries@[i as int].project@,
                    v as int,
                    tally_view(acc@),
                );
            }
            i += 1;
        }
        proof {
            assert(pairs.take(entries@.len() as int) =~= pairs);
        }
        k += 1;
    }
    proof {
        assert(days@.take(days@.len() as int) =~= days@);
    }
    (acc, sum)
}

/// Name `a` sorts before name `b`.
pub fn name_less(a: &str, b: &str) -> (r: bool)
    ensures
        r == name_lt(a@, b@),
{
    let x = chars_of(a);
    let y = chars_of(b);
    let mut i: usize = 0;
    proof {
        assert(a@.skip(0) =~= a@);
        assert(b@.skip(0) =~= b@);
    }
    while i < x.len() && i < y.len()
        invariant
            i <= x@.len(),
            i <= y@.len(),
            x@ == a@,
            y@ == b@,
            name_lt(a@, b@) == name_lt(a@.skip(i as int), b@.skip(i as int)),
        decreases x.len() - i,
    {
        proof {
            reveal(name_lt);
        }
        if x[i] != y[i] {
            return x[i] < y[i];
        }
        proof {
            assert(a@.skip(i as int).drop_first() =~= a@.skip(i + 1));
            assert(b@.skip(i as int).drop_first() =~= b@.skip(i + 1));
        }
        i += 1;
    }
    proof {
        reveal(name_lt);
    }
    i < y.len()
}

pub proof fn lemma_name_lt_irrefl(a: Seq<char>)
    ensures
        !name_lt(a, a),
    decreases a.len(),
{
    reveal(name_lt);
    if a.len() > 0 {
        lemma_name_lt_irrefl(a.drop_first());
    }
}

pub proof fn lemma_name_lt_trans(a: Seq<char>, b: Seq<char>, c: Seq<char>)
    requires
        name_lt(a, b),
        name_lt(b, c),
    ensures
        name_lt(a, c),
    decreases a.len(),
{
    reveal(name_lt);
    if a.len() > 0 && b.len() > 0 && c.len() > 0 && a[0] == b[0] && b[0] == c[0] {
        lemma_name_lt_trans(a.drop_first(), b.drop_first(), c.drop_first());
    }
}

pub proof fn lemma_name_lt_total(a: Seq<char>, b: Seq<char>)
    requires
        a != b,
    ensures
        name_lt(a, b) || name_lt(b, a),
    decreases a.len(),
{
    reveal(name_lt);
    if a.len() == 0 && b.len() == 0 {
        assert(a =~= b);
    } else if a.len() > 0 && b.len() > 0 && a[0] == b[0] {
        if a.drop_first() == b.drop_first() {
            assert(a =~= seq![a[0]] + a.drop_first());
            assert(b =~= seq![b[0]] + b.drop_first());
        }
        lemma_name_lt_total(a.drop_first(), b.drop_first());
    }
}

pub proof fn lemma_name_lt_asym(a: Seq<char>, b: Seq<char>)
    requires
        name_lt(a, b),
    ensures
        !name_lt(b, a),
{
    if name_lt(b, a) {
        lemma_name_lt_trans(a, b, a);
        lemma_name_lt_irrefl(a);
    }
}

/// `x` is listed before `y`: more minutes, or as many and a name that sorts
/// first.
pub open spec fn ranks_before(x: (Seq<char>, int, int), y: (Seq<char>, int, int)) -> bool {
    x.1 > y.1 || (x.1 == y.1 && name_lt(x.0, y.0))
}

pub open spec fn ranked(s: Seq<(Seq<char>, int, int)>) -> bool {
    forall|i: int, j: int| 0 <= i < j < s.len() ==> ranks_before(#[trigger] s[i], #[trigger] s[j])
}

pub open spec fn total_view(v: Seq<(String, Minutes, u8)>) -> Seq<(Seq<char>, int, int)> {
    Seq::new(v.len(), |i: int| (v[i].0@, v[i].1.0 as int, v[i].2 as int))
}

/// The colour of the first project called `n`; 0 when none is.
pub open spec fn color_of(p: Seq<Project>, n: Seq<char>) -> int
    decreases p.len(),
{
    if p.len() == 0 {
        0
    } else if p[0].name@ == n {
        p[0].color_index as int
    } else {
        color_of(p.drop_first(), n)
    }
}

fn color_for(projects: &[Project], name: &String) -> (r: u8)
    ensures
        r == color_of(projects@, name@),
{
    let mut i: usize = 0;
    proof {
        assert(projects@.skip(0) =~= projects@);
    }
    while i < projects.len()
        invariant
            i <= projects@.len(),
            color_of(projects@, name@) == color_of(projects@.skip(i as int), name@),
        decreases projects.len() - i,
    {
        proof {
            assert(projects@.skip(i as int).drop_first() =~= projects@.skip(i + 1));
        }
        if projects[i].name == *name {
            return projects[i].color_index;
        }
        i += 1;
    }
    0
}

fn ranks_before_exec(x: &(String, Minutes, u8), y: &(String, Minutes, u8)) -> (r: bool)
    ensures
        r == ranks_before((x.0@, x.1.0 as int, x.2 as int), (y.0@, y.1.0 as int, y.2 as int)),
{
    x.1.0 > y.1.0 || (x.1.0 == y.1.0 && name_less(x.0.as_str(), y.0.as_str()))
}

proof fn lemma_ranks_total(x: (Seq<char>, int, int), y: (Seq<char>, int, int))
    requires
        x.0 != y.0,
    ensures
        ranks_before(x, y) || ranks_before(y, x),
{
    lemma_name_lt_total(x.0, y.0);
}

proof fn lemma_ranks_trans(x: (Seq<char>, int, int), y: (Seq<char>, int, int), z: (Seq<char>, int, int))
    requires
        ranks_before(x, y),
        ranks_before(y, z),
    ensures
        ranks_before(x, z),
{
    if x.1 == y.1 && y.1 == z.1 {
        lemma_name_lt_trans(x.0, y.0, z.0);
    }
}

/// What `acc` lists, each sum with its project's colour.
pub open spec fn items_of(acc: Seq<(String, i32)>, projects: Seq<Project>) -> Seq<(Seq<char>, int, int)> {
    Seq::new(acc.len(), |m: int| (acc[m].0@, acc[m].1 as int, color_of(projects, acc[m].0@)))
}

/// Every item of `items` stands in `s`.
pub open spec fn covers<T>(s: Seq<T>, items: Seq<T>) -> bool {
    forall|m: int| 0 <= m < items.len() ==> exists|i: int| 0 <= i < s.len() && s[i] == #[trigger] items[m]
}

/// Everything in `s` is an item of `items`.
pub open spec fn drawn_from<T>(s: Seq<T>, items: Seq<T>) -> bool {
    forall|i: int| 0 <= i < s.len() ==> exists|m: int| 0 <= m < items.len() && #[trigger] s[i] == items[m]
}

proof fn lemma_insert_ranked(before: Seq<(Seq<char>, int, int)>, x: (Seq<char>, int, int), p: int)
    requires
        ranked(before),
        0 <= p <= before.len(),
        forall|i: int| 0 <= i < before.len() ==> #[trigger] before[i].0 != x.0,
        forall|i: int| 0 <= i < p ==> !ranks_before(x, #[trigger] before[i]),
        p < before.len() ==> ranks_before(x, before[p]),
    ensures
        ranked(before.insert(p, x)),
{
    assert forall|i: int| 0 <= i < p implies ranks_before(#[trigger] before[i], x) by {
        lemma_ranks_total(before[i], x);
    }
    assert forall|i: int| p <= i < before.len() implies ranks_before(x, #[trigger] before[i]) by {
        if i > p {
            lemma_ranks_trans(x, before[p], before[i]);
        }
    }
    let after = before.insert(p, x);
    before.insert_ensures(p, x);
    assert forall|i: int, j: int| 0 <= i < j < after.len() implies ranks_before(
        #[trigger] after[i],
        #[trigger] after[j],
    ) by {
        if j < p {
        } else if j == p {
        } else if i < p {
            assert(after[j] == before[j - 1]);
        } else if i == p {
            assert(after[j] == before[j - 1]);
        } else {
            assert(after[i] == before[i - 1]);
            assert(after[j] == before[j - 1]);
        }
    }
}

proof fn lemma_insert_items<T>(before: Seq<T>, items: Seq<T>, k: int, p: int)
    requires
        0 <= k < items.len(),
        0 <= p <= before.len(),
        covers(before, items.take(k)),
        drawn_from(before, items.take(k)),
    ensures
        covers(before.insert(p, items[k]), items.take(k + 1)),
        drawn_from(before.insert(p, items[k]), items.take(k + 1)),
{
    let after = before.insert(p, items[k]);
    before.insert_ensures(p, items[k]);
    let t = items.take(k);
    let t1 = items.take(k + 1);
    assert forall|m: int| 0 <= m < t1.len() implies exists|i: int|
        0 <= i < after.len() && after[i] == #[trigger] t1[m] by {
        if m == k {
            assert(after[p] == t1[m]);
        } else {
            assert(t1[m] == t[m]);
            let i = choose|i: int| 0 <= i < before.len() && before[i] == #[trigger] t[m];
            if i < p {
                assert(after[i] == before[i]);
            } else {
                assert(after[i + 1] == before[i]);
            }
        }
    }
    assert forall|i: int| 0 <= i < after.len() implies exists|m: int|
        0 <= m < t1.len() && #[trigger] after[i] == t1[m] by {
        if i == p {
            assert(after[i] == t1[k]);
        } else {
            let bi = if i < p {
                i
            } else {
                i - 1
            };
            assert(after[i] == before[bi]);
            let m = choose|m: int| 0 <= m < t.len() && #[trigger] before[bi] == t[m];
            assert(t1[m] == t[m]);
        }
    }
}

/// The sums of `acc` with each project's colour, in ranking order: most
/// minutes first, ties by name.
#[verifier::spinoff_prover]
#[verifier::rlimit(40)]
pub fn ranked_totals(acc: &Vec<(String, i32)>, projects: &[Project]) -> (r: Vec<(String, Minutes, u8)>)
    requires
        forall|i: int, j: int|
            0 <= i < j < acc@.len() ==> #[trigger] acc@[i].0@ != #[trigger] acc@[j].0@,
    ensures
        r@.len() == acc@.len(),
        ranked(total_view(r@)),
        covers(total_view(r@), items_of(acc@, projects@)),
        drawn_from(total_view(r@), items_of(acc@, projects@)),
{
    let ghost items = items_of(acc@, projects@);
    let mut out: Vec<(String, Minutes, u8)> = Vec::new();
    let mut k: usize = 0;
    proof {
        assert(total_view(out@) =~= Seq::<(Seq<char>, int, int)>::empty());
    }
    while k < acc.len()
        invariant
            k <= acc@.len(),
            out@.len() == k,
            items == items_of(acc@, projects@),
            forall|i: int, j: int|
                0 <= i < j < acc@.len() ==> #[trigger] acc@[i].0@ != #[trigger] acc@[j].0@,
            ranked(total_view(out@)),
            covers(total_view(out@), items.take(k as int)),
            drawn_from(total_view(out@), items.take(k as int)),
        decreases acc.len() - k,
    {
        let c = color_for(projects, &acc[k].0);
        let item = (acc[k].0.clone(), Minutes(acc[k].1), c);
        let ghost x = items[k as int];
        let ghost before = total_view(out@);
        proof {
            assert(x == (item.0@, item.1.0 as int, item.2 as int));
            assert forall|i: int| 0 <= i < before.len() implies #[trigger] before[i].0 != x.0 by {
                let m = choose|m: int| 0 <= m < k && #[trigger] before[i] == items.take(k as int)[m];
                assert(items[m].0 == acc@[m].0@);
                assert(acc@[m].0@ != acc@[k as int].0@);
            }
        }
        let mut p: usize = 0;
        while p < out.len() && !ranks_before_exec(&item, &out[p])
            invariant
                p <= out@.len(),
                before == total_view(out@),
                x == (item.0@, item.1.0 as int, item.2 as int),
                forall|i: int| 0 <= i < p ==> !ranks_before(x, #[trigger] before[i]),
            decreases out.len() - p,
        {
            p += 1;
        }
        proof {
            lemma_insert_ranked(before, x, p as int);
            lemma_insert_items(before, items, k as int, p as int);
        }
        let ghost old_out = out@;
        out.insert(p, item);
        proof {
            old_out.insert_ensures(p as int, item);
            before.insert_ensures(p as int, x);
            assert(total_view(out@) =~= before.insert(p as int, x));
        }
        k += 1;
    }
    proof {
        assert(items.take(acc@.len() as int) =~= items);
    }
    out
}

/// `r` lists every project of `w` once, with the minutes `w` books to it
/// and its colour, in ranking order.
pub open spec fn lists_totals(
    r: Seq<(Seq<char>, int, int)>,
    w: Seq<(Seq<char>, int)>,
    projects: Seq<Project>,
) -> bool {
    &&& ranked(r)
    &&& forall|i: int|
        0 <= i < r.len() ==> named(w, (#[trigger] r[i]).0) && r[i].1 == name_total(w, r[i].0) && r[i].2
            == color_of(projects, r[i].0)
    &&& forall|k: int| 0 <= k < w.len() ==> exists|i: int| 0 <= i < r.len() && (#[trigger] r[i]).0 == (#[trigger] w[k]).0
}

/// The net minutes of the days per project, ranked, with each project's
/// colour; and all of them together.
pub fn project_totals(days: &[Day], tiers: &[BreakTier], projects: &[Project]) -> (r: (
    Vec<(String, Minutes, u8)>,
    Minutes,
))
    requires
        magnitude(amounts(worked(days@, tiers@))) <= i32::MAX,
    ensures
        lists_totals(total_view(r.0@), worked(days@, tiers@), projects@),
        r.1.0 == total(amounts(worked(days@, tiers@))),
{
    let (acc, sum) = tally_days(days, tiers);
    let ghost w = worked(days@, tiers@);
    proof {
        assert forall|i: int, j: int| 0 <= i < j < acc@.len() implies #[trigger] acc@[i].0@
            != #[trigger] acc@[j].0@ by {
            assert(tally_view(acc@)[i].0 != tally_view(acc@)[j].0);
        }
    }
    let out = ranked_totals(&acc, projects);
    proof {
        let r = total_view(out@);
        let items = items_of(acc@, projects@);
        assert forall|i: int| 0 <= i < r.len() implies named(w, (#[trigger] r[i]).0) && r[i].1
            == name_total(w, r[i].0) && r[i].2 == color_of(projects@, r[i].0) by {
            let m = choose|m: int| 0 <= m < items.len() && #[trigger] r[i] == items[m];
            assert(tally_view(acc@)[m] == (acc@[m].0@, acc@[m].1 as int));
            let tv = tally_view(acc@);
            assert(named(w, tv[m].0) && tv[m].1 == name_total(w, tv[m].0));
        }
        assert forall|k: int| 0 <= k < w.len() implies exists|i: int|
            0 <= i < r.len() && (#[trigger] r[i]).0 == (#[trigger] w[k]).0 by {
            let m = choose|m: int|
                0 <= m < tally_view(acc@).len() && #[trigger] tally_view(acc@)[m].0 == #[trigger] w[k].0;
            assert(items[m].0 == acc@[m].0@);
            let i = choose|i: int| 0 <= i < r.len() && r[i] == #[trigger] items[m];
        }
    }
    (out, Minutes(sum))
}

/// The minutes of a list of totals, summed.
pub open spec fn listed_minutes(r: Seq<(Seq<char>, int, int)>) -> int
    decreases r.len(),
{
    if r.len() == 0 {
        0
    } else {
        listed_minutes(r.drop_last()) + r.last().1
    }
}

/// `v` for every total of `r` named `n`, summed.
spec fn named_amount(r: Seq<(Seq<char>, int, int)>, n: Seq<char>, v: int) -> int
    decreases r.len(),
{
    if r.len() == 0 {
        0
    } else {
        named_amount(r.drop_last(), n, v) + if r.last().0 == n {
            v
        } else {
            0
        }
    }
}

/// What `w` books to each name of `r`, summed.
spec fn totals_over(r: Seq<(Seq<char>, int, int)>, w: Seq<(Seq<char>, int)>) -> int
    decreases r.len(),
{
    if r.len() == 0 {
        0
    } else {
        totals_over(r.drop_last(), w) + name_total(w, r.last().0)
    }
}

spec fn distinct_names(r: Seq<(Seq<char>, int, int)>) -> bool {
    forall|i: int, j: int| 0 <= i < j < r.len() ==> #[trigger] r[i].0 != #[trigger] r[j].0
}

proof fn lemma_named_amount(r: Seq<(Seq<char>, int, int)>, n: Seq<char>, v: int)
    requires
        distinct_names(r),
    ensures
        (exists|i: int| 0 <= i < r.len() && #[trigger] r[i].0 == n) ==> named_amount(r, n, v) == v,
        !(exists|i: int| 0 <= i < r.len() && #[trigger] r[i].0 == n) ==> named_amount(r, n, v) == 0,
    decreases r.len(),
{
    if r.len() > 0 {
        let u = r.drop_last();
        assert(distinct_names(u)) by {
            assert forall|i: int, j: int| 0 <= i < j < u.len() implies #[trigger] u[i].0 != #[trigger] u[j].0 by {
                assert(u[i] == r[i] && u[j] == r[j]);
            }
        }
        lemma_named_amount(u, n, v);
        if exists|i: int| 0 <= i < r.len() && #[trigger] r[i].0 == n {
            let i = choose|i: int| 0 <= i < r.len() && #[trigger] r[i].0 == n;
            if r.last().0 == n {
                assert forall|k: int| 0 <= k < u.len() implies #[trigger] u[k].0 != n by {
                    assert(u[k] == r[k]);
                    assert(r[k].0 != r[r.len() - 1].0);
                }
            } else {
                assert(i < u.len());
                assert(u[i] == r[i]);
            }
        } else {
            assert forall|k: int| 0 <= k < u.len() implies #[trigger] u[k].0 != n by {
                assert(u[k] == r[k]);
            }
            assert(r.last() == r[r.len() - 1]);
        }
    }
}

proof fn lemma_totals_step(r: Seq<(Seq<char>, int, int)>, w: Seq<(Seq<char>, int)>)
    requires
        w.len() > 0,
    ensures
        totals_over(r, w) == totals_over(r, w.drop_last()) + named_amount(r, w.last().0, w.last().1),
    decreases r.len(),
{
    if r.len() > 0 {
        lemma_totals_step(r.drop_last(), w);
    }
}

proof fn lemma_totals_empty(r: Seq<(Seq<char>, int, int)>, w: Seq<(Seq<char>, int)>)
    requires
        w.len() == 0,
    ensures
        totals_over(r, w) == 0,
    decreases r.len(),
{
    if r.len() > 0 {
        lemma_totals_empty(r.drop_last(), w);
    }
}

/// Whether some total of `r` is named `n`.
spec fn named_in(r: Seq<(Seq<char>, int, int)>, n: Seq<char>) -> bool {
    exists|i: int| 0 <= i < r.len() && #[trigger] r[i].0 == n
}

proof fn lemma_totals_cover(r: Seq<(Seq<char>, int, int)>, w: Seq<(Seq<char>, int)>)
    requires
        distinct_names(r),
        forall|k: int| 0 <= k < w.len() ==> #[trigger] named_in(r, w[k].0),
    ensures
        totals_over(r, w) == total(amounts(w)),
    decreases w.len(),
{
    if w.len() == 0 {
        lemma_totals_empty(r, w);
    } else {
        let u = w.drop_last();
        assert forall|k: int| 0 <= k < u.len() implies #[trigger] named_in(r, u[k].0) by {
            assert(u[k] == w[k]);
            assert(named_in(r, w[k].0));
        }
        lemma_totals_cover(r, u);
        lemma_totals_step(r, w);
        assert(w.last() == w[w.len() - 1]);
        assert(named_in(r, w[w.len() - 1].0));
        lemma_named_amount(r, w.last().0, w.last().1);
        assert(amounts(w).drop_last() =~= amounts(u));
    }
}

proof fn lemma_listed_is_totals(r: Seq<(Seq<char>, int, int)>, w: Seq<(Seq<char>, int)>)
    requires
        forall|i: int| 0 <= i < r.len() ==> (#[trigger] r[i]).1 == name_total(w, r[i].0),
    ensures
        listed_minutes(r) == totals_over(r, w),
    decreases r.len(),
{
    if r.len() > 0 {
        let u = r.drop_last();
        assert forall|i: int| 0 <= i < u.len() implies (#[trigger] u[i]).1 == name_total(w, u[i].0) by {
            assert(u[i] == r[i]);
        }
        lemma_listed_is_totals(u, w);
        assert(r.last() == r[r.len() - 1]);
    }
}

/// A list of project totals adds up to all the minutes it was made from:
/// each project is listed once, with what it was booked.
pub proof fn lists_totals_add_up(r: Seq<(Seq<char>, int, int)>, w: Seq<(Seq<char>, int)>, projects: Seq<Project>)
    requires
        lists_totals(r, w, projects),
    ensures
        listed_minutes(r) == total(amounts(w)),
{
    assert(distinct_names(r)) by {
        assert forall|i: int, j: int| 0 <= i < j < r.len() implies #[trigger] r[i].0 != #[trigger] r[j].0 by {
            assert(ranks_before(r[i], r[j]));
            if r[i].0 == r[j].0 {
                lemma_name_lt_irrefl(r[i].0);
            }
        }
    }
    assert forall|k: int| 0 <= k < w.len() implies #[trigger] named_in(r, w[k].0) by {
        let n = w[k].0;
        assert(exists|i: int| 0 <= i < r.len() && (#[trigger] r[i]).0 == (#[trigger] w[k]).0);
    }
    lemma_listed_is_totals(r, w);
    lemma_totals_cover(r, w);
}

} // verus!
