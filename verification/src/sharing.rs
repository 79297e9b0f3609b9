//! Why project time adds up: every session's deduction is shared out over
//! exactly the entries of that session, so the nets of a day's entries add
//! up to the day's gross less what its sessions lose.
use crate::breaks::{
    by_default, by_hand, entries_sane, entry_intervals, grosses, insert_by_start, leftover,
    lemma_by_default, lemma_by_hand, lemma_leftover, lemma_merged_bounds, lemma_sort_props,
    lemma_sort_tags, lemma_tagged_tags, max, member_grosses, member_nets, member_shares, merged,
    nets_of, nonneg, session_pays, sessions_deduction, sessions_of, sort_by_start, tagged,
    tags_below, tier_deduction, tiers_sane, lemma_tier_deduction_nonneg, lemma_pick, pick, total, update_at, apply_sessions, BreakTier,
};
use crate::types::Entry;
use vstd::prelude::*;

verus! {

/// The positions of a list of sessions, session after session.
pub open spec fn flat(ss: Seq<(int, int, Seq<usize>)>) -> Seq<usize>
    decreases ss.len(),
{
    if ss.len() == 0 {
        Seq::empty()
    } else {
        flat(ss.drop_last()) + ss.last().2
    }
}

/// The positions intervals carry, in their order.
pub open spec fn tags(t: Seq<(i32, i32, usize)>) -> Seq<usize> {
    Seq::new(t.len(), |k: int| t[k].2)
}

/// No position occurs twice.
pub open spec fn distinct(s: Seq<usize>) -> bool {
    forall|i: int, j: int| 0 <= i < j < s.len() ==> s[i] != s[j]
}

/// Merging hands on every interval's position, in order, to exactly one
/// session.
pub proof fn lemma_flat_merged(t: Seq<(i32, i32, usize)>)
    ensures
        flat(merged(t)) == tags(t),
    decreases t.len(),
{
    if t.len() > 0 {
        let u = t.drop_last();
        lemma_flat_merged(u);
        let m = merged(u);
        let x = t.last();
        assert(tags(t) =~= tags(u).push(x.2));
        if m.len() > 0 && x.0 <= m.last().1 {
            let r = merged(t);
            assert(r.drop_last() =~= m.drop_last());
            assert(flat(m) == flat(m.drop_last()) + m.last().2);
            assert(flat(r) =~= flat(m.drop_last()) + m.last().2.push(x.2));
            assert(flat(r) =~= tags(t));
        } else {
            let r = merged(t);
            assert(r.drop_last() =~= m);
            assert(flat(r) =~= tags(t));
        }
    }
}

/// An insertion puts `x` somewhere between the intervals, in their order.
proof fn lemma_insert_somewhere(t: Seq<(i32, i32, usize)>, x: (i32, i32, usize)) -> (p: int)
    ensures
        0 <= p <= t.len(),
        insert_by_start(t, x) == t.insert(p, x),
    decreases t.len(),
{
    if t.len() == 0 {
        assert(seq![x] =~= t.insert(0, x));
        0
    } else if t.last().0 <= x.0 {
        assert(t.push(x) =~= t.insert(t.len() as int, x));
        t.len() as int
    } else {
        let u = t.drop_last();
        let p = lemma_insert_somewhere(u, x);
        assert(u.insert(p, x).push(t.last()) =~= t.insert(p, x));
        p
    }
}

/// The sorted intervals of a list carry its positions, each once.
pub proof fn lemma_sort_distinct(iv: Seq<(i32, i32)>, i: int)
    requires
        0 <= i <= iv.len() <= usize::MAX,
    ensures
        distinct(tags(sort_by_start(tagged(iv).take(i)))),
    decreases i,
{
    if i > 0 {
        let s = tagged(iv).take(i);
        let u = s.drop_last();
        assert(u =~= tagged(iv).take(i - 1));
        lemma_sort_distinct(iv, i - 1);
        let t = sort_by_start(u);
        let x = s.last();
        assert(x.2 == (i - 1) as usize);
        assert(x.2 as int == i - 1);
        assert(tags_below(u, i - 1)) by {
            assert forall|k: int| 0 <= k < u.len() implies (#[trigger] u[k]).2 < i - 1 by {}
        }
        lemma_sort_tags(u, i - 1);
        let p = lemma_insert_somewhere(t, x);
        let r = t.insert(p, x);
        assert(tags(r) =~= tags(t).insert(p, x.2));
        let a = tags(t);
        let b = tags(r);
        assert forall|j: int, k: int| 0 <= j < k < b.len() implies b[j] != b[k] by {
            if j < p && k < p {
                assert(b[j] == a[j] && b[k] == a[k]);
            } else if j < p && k == p {
                assert(b[j] == a[j]);
                assert(t[j].2 < i - 1);
            } else if j < p {
                assert(b[j] == a[j] && b[k] == a[k - 1]);
            } else if j == p {
                assert(b[k] == a[k - 1]);
                assert(t[k - 1].2 < i - 1);
            } else {
                assert(b[j] == a[j - 1] && b[k] == a[k - 1]);
            }
        }
    }
}

/// The sessions of a list of intervals carry each position once.
pub proof fn lemma_sessions_partition(iv: Seq<(i32, i32)>)
    requires
        iv.len() <= usize::MAX,
    ensures
        distinct(flat(sessions_of(iv))),
        forall|i: int| 0 <= i < flat(sessions_of(iv)).len() ==> #[trigger] flat(sessions_of(iv))[i] < iv.len(),
{
    assert(tagged(iv).take(iv.len() as int) =~= tagged(iv));
    lemma_sort_distinct(iv, iv.len() as int);
    lemma_flat_merged(sort_by_start(tagged(iv)));
    lemma_tagged_tags(iv);
    lemma_sort_tags(tagged(iv), iv.len() as int);
    lemma_sort_props(tagged(iv), 0, 0);
}

/// Writing `x` at `i` changes the sum by `x - w[i]`.
pub proof fn lemma_total_update(w: Seq<int>, i: int, x: int)
    requires
        0 <= i < w.len(),
    ensures
        total(w.update(i, x)) == total(w) - w[i] + x,
    decreases w.len(),
{
    if i == w.len() - 1 {
        assert(w.update(i, x).drop_last() =~= w.drop_last());
    } else {
        lemma_total_update(w.drop_last(), i, x);
        assert(w.update(i, x).drop_last() =~= w.drop_last().update(i, x));
    }
}

/// The values of `v` at the positions `pos`.
pub open spec fn at(v: Seq<int>, pos: Seq<usize>) -> Seq<int> {
    Seq::new(pos.len(), |j: int| v[pos[j] as int])
}

/// Writing at distinct positions leaves the others alone and changes the sum
/// by what was written less what it replaced.
pub proof fn lemma_update_at(v: Seq<int>, pos: Seq<usize>, vals: Seq<int>)
    requires
        distinct(pos),
        vals.len() == pos.len(),
        forall|j: int| 0 <= j < pos.len() ==> #[trigger] pos[j] < v.len(),
    ensures
        update_at(v, pos, vals).len() == v.len(),
        forall|i: int|
            0 <= i < v.len() && (forall|j: int| 0 <= j < pos.len() ==> pos[j] != i) ==> #[trigger] update_at(
                v,
                pos,
                vals,
            )[i] == v[i],
        total(update_at(v, pos, vals)) == total(v) - total(at(v, pos)) + total(vals),
    decreases pos.len(),
{
    if pos.len() > 0 {
        let q = pos.drop_last();
        let ws = vals.drop_last();
        assert forall|j: int| 0 <= j < q.len() implies #[trigger] q[j] < v.len() by {
            assert(q[j] == pos[j]);
        }
        lemma_update_at(v, q, ws);
        let w = update_at(v, q, ws);
        let p = pos.last();
        assert(p == pos[pos.len() - 1]);
        assert forall|j: int| 0 <= j < q.len() implies q[j] != p by {
            assert(q[j] == pos[j]);
        }
        assert(w[p as int] == v[p as int]);
        lemma_total_update(w, p as int, vals.last());
        assert(at(v, pos).drop_last() =~= at(v, q));
        assert(at(v, pos).last() == v[p as int]);
        assert forall|i: int|
            0 <= i < v.len() && (forall|j: int| 0 <= j < pos.len() ==> pos[j] != i) implies #[trigger] update_at(
            v,
            pos,
            vals,
        )[i] == v[i] by {
            assert(pos[pos.len() - 1] != i);
            assert forall|j: int| 0 <= j < q.len() implies q[j] != i by {
                assert(q[j] == pos[j]);
            }
        }
    }
}

/// The total of a pointwise difference is the difference of the totals.
pub proof fn lemma_total_sub(a: Seq<int>, b: Seq<int>)
    requires
        a.len() == b.len(),
    ensures
        total(Seq::new(a.len(), |j: int| a[j] - b[j])) == total(a) - total(b),
    decreases a.len(),
{
    if a.len() > 0 {
        lemma_total_sub(a.drop_last(), b.drop_last());
        assert(Seq::new(a.len(), |j: int| a[j] - b[j]).drop_last() =~= Seq::new(
            a.drop_last().len(),
            |j: int| a.drop_last()[j] - b.drop_last()[j],
        ));
    }
}

/// The total of a pointwise sum of three is the sum of the totals.
pub proof fn lemma_total_add3(a: Seq<int>, b: Seq<int>, c: Seq<int>)
    requires
        a.len() == b.len() == c.len(),
    ensures
        total(Seq::new(a.len(), |j: int| a[j] + b[j] + c[j])) == total(a) + total(b) + total(c),
    decreases a.len(),
{
    if a.len() > 0 {
        lemma_total_add3(a.drop_last(), b.drop_last(), c.drop_last());
        assert(Seq::new(a.len(), |j: int| a[j] + b[j] + c[j]).drop_last() =~= Seq::new(
            a.drop_last().len(),
            |j: int| a.drop_last()[j] + b.drop_last()[j] + c.drop_last()[j],
        ));
    }
}

/// Adding `r` to the last of some numbers adds `r` to their sum.
proof fn lemma_total_bump_last(a: Seq<int>, r: int)
    requires
        a.len() > 0,
    ensures
        total(Seq::new(a.len(), |j: int| a[j] + if j == a.len() - 1 { r } else { 0 })) == total(a) + r,
{
    let b = Seq::new(a.len(), |j: int| a[j] + if j == a.len() - 1 { r } else { 0 });
    assert(b.drop_last() =~= a.drop_last());
}

/// A session's entries pay exactly its deduction, whatever it is, as long
/// as it is not negative: what none of them has room for falls on the entry
/// worked last.
pub proof fn lemma_pays_add_up(g: Seq<int>, sh: Seq<Option<crate::minutes::Minutes>>, d: int)
    requires
        g.len() == sh.len(),
        g.len() > 0,
        nonneg(g),
        0 <= d,
    ensures
        total(session_pays(g, sh, d)) == d,
{
    let p1 = by_hand(g, sh, d);
    let p2 = by_default(g, sh, p1.1);
    let c = Seq::new(g.len(), |j: int| g[j] - p1.0[j] - p2.0[j]);
    lemma_by_hand(g, sh, d);
    lemma_by_default(g, sh, p1.1);
    lemma_leftover(c, p2.1);
    let p3 = leftover(c, p2.1);
    let a = Seq::new(p1.0.len(), |j: int| p1.0[j] + p2.0[j] + p3.0[j]);
    lemma_total_add3(p1.0, p2.0, p3.0);
    assert(p3.1 >= 0);
    lemma_total_bump_last(a, max(p3.1, 0));
    assert(session_pays(g, sh, d) =~= Seq::new(
        a.len(),
        |j: int| a[j] + if j == a.len() - 1 { max(p3.1, 0) } else { 0 },
    ));
}

/// What the sessions' entries pay together.
pub open spec fn pays_total(e: Seq<Entry>, ss: Seq<(int, int, Seq<usize>)>, t: Seq<BreakTier>) -> int
    decreases ss.len(),
{
    if ss.len() == 0 {
        0
    } else {
        pays_total(e, ss.drop_last(), t) + total(member_grosses(e, ss.last().2)) - total(
            member_nets(e, ss.last(), t),
        )
    }
}

/// Applying sessions whose positions are distinct leaves the positions
/// outside them alone and takes what their entries pay off the total.
proof fn lemma_apply(e: Seq<Entry>, ss: Seq<(int, int, Seq<usize>)>, t: Seq<BreakTier>)
    requires
        distinct(flat(ss)),
        forall|i: int| 0 <= i < flat(ss).len() ==> #[trigger] flat(ss)[i] < e.len(),
    ensures
        apply_sessions(e, ss, t, grosses(e)).len() == e.len(),
        forall|i: int|
            0 <= i < e.len() && (forall|j: int| 0 <= j < flat(ss).len() ==> flat(ss)[j] != i)
                ==> #[trigger] apply_sessions(e, ss, t, grosses(e))[i] == grosses(e)[i],
        total(apply_sessions(e, ss, t, grosses(e))) == total(grosses(e)) - pays_total(e, ss, t),
    decreases ss.len(),
{
    if ss.len() > 0 {
        let ps = ss.drop_last();
        let s = ss.last();
        let f = flat(ps);
        assert(flat(ss) == f + s.2);
        assert(distinct(f)) by {
            assert forall|i: int, j: int| 0 <= i < j < f.len() implies f[i] != f[j] by {
                assert(flat(ss)[i] == f[i] && flat(ss)[j] == f[j]);
            }
        }
        assert forall|i: int| 0 <= i < f.len() implies #[trigger] f[i] < e.len() by {
            assert(flat(ss)[i] == f[i]);
        }
        lemma_apply(e, ps, t);
        let w = apply_sessions(e, ps, t, grosses(e));
        assert(distinct(s.2)) by {
            assert forall|i: int, j: int| 0 <= i < j < s.2.len() implies s.2[i] != s.2[j] by {
                assert(flat(ss)[f.len() + i] == s.2[i]);
                assert(flat(ss)[f.len() + j] == s.2[j]);
            }
        }
        assert forall|j: int| 0 <= j < s.2.len() implies #[trigger] s.2[j] < w.len() by {
            assert(flat(ss)[f.len() + j] == s.2[j]);
        }
        let nets = member_nets(e, s, t);
        lemma_update_at(w, s.2, nets);
        // the members of the last session were not touched before it
        assert(at(w, s.2) =~= member_grosses(e, s.2)) by {
            assert forall|j: int| 0 <= j < s.2.len() implies #[trigger] at(w, s.2)[j] == member_grosses(
                e,
                s.2,
            )[j] by {
                let p = s.2[j];
                assert(flat(ss)[f.len() + j] == p);
                assert forall|q: int| 0 <= q < f.len() implies f[q] != p by {
                    assert(flat(ss)[q] == f[q]);
                }
            }
        }
        assert forall|i: int|
            0 <= i < e.len() && (forall|j: int| 0 <= j < flat(ss).len() ==> flat(ss)[j] != i)
                implies #[trigger] apply_sessions(e, ss, t, grosses(e))[i] == grosses(e)[i] by {
            assert forall|j: int| 0 <= j < f.len() implies f[j] != i by {
                assert(flat(ss)[j] == f[j]);
            }
            assert forall|j: int| 0 <= j < s.2.len() implies s.2[j] != i by {
                assert(flat(ss)[f.len() + j] == s.2[j]);
            }
        }
    }
}

/// Every session that merging makes has at least one member.
proof fn lemma_merged_nonempty(t: Seq<(i32, i32, usize)>)
    ensures
        forall|k: int| 0 <= k < merged(t).len() ==> (#[trigger] merged(t)[k]).2.len() > 0,
    decreases t.len(),
{
    if t.len() > 0 {
        let m = merged(t.drop_last());
        lemma_merged_nonempty(t.drop_last());
        let x = t.last();
        assert forall|k: int| 0 <= k < merged(t).len() implies (#[trigger] merged(t)[k]).2.len() > 0 by {
            if m.len() > 0 && x.0 <= m.last().1 {
                if k < m.len() - 1 {
                    assert(merged(t)[k] == m[k]);
                }
            } else {
                if k < m.len() {
                    assert(merged(t)[k] == m[k]);
                }
            }
        }
    }
}

/// The sessions' deductions, each paid in full by its entries.
proof fn lemma_pays_total(e: Seq<Entry>, ss: Seq<(int, int, Seq<usize>)>, t: Seq<BreakTier>)
    requires
        tiers_sane(t),
        forall|k: int| 0 <= k < ss.len() ==> #[trigger] nonneg(member_grosses(e, ss[k].2)),
        forall|k: int| 0 <= k < ss.len() ==> (#[trigger] ss[k]).2.len() > 0,
    ensures
        pays_total(e, ss, t) == sessions_deduction(ss, t),
    decreases ss.len(),
{
    if ss.len() > 0 {
        let ps = ss.drop_last();
        assert forall|k: int| 0 <= k < ps.len() implies #[trigger] nonneg(member_grosses(e, ps[k].2)) by {
            assert(ps[k] == ss[k]);
        }
        assert forall|k: int| 0 <= k < ps.len() implies (#[trigger] ps[k]).2.len() > 0 by {
            assert(ps[k] == ss[k]);
        }
        lemma_pays_total(e, ps, t);
        let s = ss.last();
        assert(s == ss[ss.len() - 1]);
        let g = member_grosses(e, s.2);
        let d = tier_deduction(t, s.1 - s.0);
        lemma_tier_deduction_nonneg(t, s.1 - s.0);
        lemma_pays_add_up(g, member_shares(e, s.2), d);
        let p = session_pays(g, member_shares(e, s.2), d);
        assert(member_nets(e, s, t) =~= Seq::new(g.len(), |j: int| g[j] - p[j]));
        lemma_total_sub(g, p);
    }
}

/// The nets of a day's entries add up to its gross less what its sessions
/// lose: every session's deduction is charged in full, over that session's
/// entries and no others.
pub proof fn lemma_nets_add_up(e: Seq<Entry>, t: Seq<BreakTier>)
    requires
        e.len() <= usize::MAX,
        entries_sane(e),
        tiers_sane(t),
    ensures
        nets_of(e, t).len() == e.len(),
        total(nets_of(e, t)) == total(grosses(e)) - sessions_deduction(sessions_of(entry_intervals(e)), t),
{
    let iv = entry_intervals(e);
    let ss = sessions_of(iv);
    lemma_sessions_partition(iv);
    lemma_apply(e, ss, t);
    lemma_merged_nonempty(sort_by_start(tagged(iv)));
    assert forall|k: int| 0 <= k < ss.len() implies #[trigger] nonneg(member_grosses(e, ss[k].2)) by {
        let g = member_grosses(e, ss[k].2);
        assert forall|j: int| 0 <= j < g.len() implies 0 <= #[trigger] g[j] by {
            lemma_member_in_range(iv, k, j);
            let p = ss[k].2[j] as int;
            assert(0 <= e[p].iv().0 < 1440 && e[p].iv().0 < e[p].iv().1);
        }
    }
    lemma_pays_total(e, ss, t);
}

/// A member of a session is a position of the list.
proof fn lemma_member_in_range(iv: Seq<(i32, i32)>, k: int, j: int)
    requires
        0 <= k < sessions_of(iv).len(),
        0 <= j < sessions_of(iv)[k].2.len(),
    ensures
        sessions_of(iv)[k].2[j] < iv.len(),
{
    lemma_tagged_tags(iv);
    lemma_sort_tags(tagged(iv), iv.len() as int);
    lemma_merged_bounds(sort_by_start(tagged(iv)), 0, 0, iv.len() as int);
}

/// Writing values within per-position bounds keeps a list within them.
proof fn lemma_update_at_bounds(v: Seq<int>, hi: Seq<int>, pos: Seq<usize>, vals: Seq<int>)
    requires
        v.len() == hi.len(),
        forall|i: int| 0 <= i < v.len() ==> -0x7fff_ffff <= #[trigger] v[i] <= hi[i],
        vals.len() == pos.len(),
        forall|j: int| 0 <= j < pos.len() ==> #[trigger] pos[j] < v.len(),
        forall|j: int| 0 <= j < pos.len() ==> -0x7fff_ffff <= #[trigger] vals[j] <= hi[pos[j] as int],
    ensures
        update_at(v, pos, vals).len() == v.len(),
        forall|i: int| 0 <= i < v.len() ==> -0x7fff_ffff <= #[trigger] update_at(v, pos, vals)[i] <= hi[i],
    decreases pos.len(),
{
    if pos.len() > 0 {
        let q = pos.drop_last();
        let ws = vals.drop_last();
        assert forall|j: int| 0 <= j < q.len() implies #[trigger] q[j] < v.len() by {
            assert(q[j] == pos[j]);
        }
        assert forall|j: int| 0 <= j < q.len() implies -0x7fff_ffff <= #[trigger] ws[j] <= hi[q[j] as int] by {
            assert(ws[j] == vals[j]);
            assert(q[j] == pos[j]);
        }
        lemma_update_at_bounds(v, hi, q, ws);
        assert(pos.last() == pos[pos.len() - 1]);
        assert(vals.last() == vals[vals.len() - 1]);
    }
}

/// No entry nets more than its gross, and none nets less than what one
/// tier can deduct: every net fits in minutes.
pub proof fn lemma_nets_bounds(e: Seq<Entry>, t: Seq<BreakTier>)
    requires
        e.len() <= usize::MAX,
        entries_sane(e),
    ensures
        nets_of(e, t).len() == e.len(),
        forall|i: int| 0 <= i < e.len() ==> -0x7fff_ffff <= #[trigger] nets_of(e, t)[i] <= grosses(e)[i],
{
    let iv = entry_intervals(e);
    lemma_apply_bounds(e, sessions_of(iv), t);
}

proof fn lemma_apply_bounds(e: Seq<Entry>, ss: Seq<(int, int, Seq<usize>)>, t: Seq<BreakTier>)
    requires
        entries_sane(e),
        ss.len() <= sessions_of(entry_intervals(e)).len(),
        forall|k: int| 0 <= k < ss.len() ==> #[trigger] ss[k] == sessions_of(entry_intervals(e))[k],
    ensures
        apply_sessions(e, ss, t, grosses(e)).len() == e.len(),
        forall|i: int|
            0 <= i < e.len() ==> -0x7fff_ffff <= #[trigger] apply_sessions(e, ss, t, grosses(e))[i]
                <= grosses(e)[i],
    decreases ss.len(),
{
    let iv = entry_intervals(e);
    if ss.len() > 0 {
        let ps = ss.drop_last();
        assert forall|k: int| 0 <= k < ps.len() implies #[trigger] ps[k] == sessions_of(iv)[k] by {
            assert(ps[k] == ss[k]);
        }
        lemma_apply_bounds(e, ps, t);
        let s = ss.last();
        let k = ss.len() - 1;
        assert(s == sessions_of(iv)[k]);
        let w = apply_sessions(e, ps, t, grosses(e));
        let g = member_grosses(e, s.2);
        assert forall|j: int| 0 <= j < s.2.len() implies #[trigger] s.2[j] < e.len() by {
            lemma_member_in_range(iv, k, j);
        }
        assert(nonneg(g)) by {
            assert forall|j: int| 0 <= j < g.len() implies 0 <= #[trigger] g[j] by {
                let p = s.2[j] as int;
                assert(0 <= e[p].iv().0 < 1440 && e[p].iv().0 < e[p].iv().1);
            }
        }
        let sh = member_shares(e, s.2);
        let d = tier_deduction(t, s.1 - s.0);
        assert(d <= 0x7fff_ffff) by {
            lemma_pick(t, s.1 - s.0);
        }
        crate::breaks::lemma_session_pays_bounds(g, sh, d);
        let nets = member_nets(e, s, t);
        assert forall|j: int| 0 <= j < s.2.len() implies -0x7fff_ffff <= #[trigger] nets[j] <= grosses(
            e,
        )[s.2[j] as int] by {
            assert(0 <= session_pays(g, sh, d)[j] <= g[j] + if j == g.len() - 1 {
                max(d, 0)
            } else {
                0
            });
        }
        lemma_update_at_bounds(w, grosses(e), s.2, nets);
    }
}

} // verus!
