//! What the forms of the terminal interface accept: the break split, the
//! settings overlay and the entry form, and the lines they show.
use crate::config::ConfigPatch;
use crate::date::Date;
use crate::import::find_sub;
use crate::minutes::{HoursFormat, Minutes, minutes_text, unsigned_text, signed_text, abs};
use crate::text::{
    chars_of, decimal, i32_text, parse_int, push_decimal, push_str, string_of, trim, trim_bounds,
    trimmed, u32_text,
};
use crate::time_parse::{check_range, date_text, parse_date, parse_time, parse_u32, time_text};
use crate::balance::{check_overlap, overlaps};
use crate::breaks::{
    BreakTier, entry_intervals, session_deduction, session_lengths_fit, sessions_deduction,
    sessions_of, total, grosses, max,
};
use crate::date::Time;
use crate::types::{Entry, span};
use vstd::prelude::*;

verus! {

/// What a typed share means: nothing typed is no share, a whole number of
/// minutes from zero on is that share, anything else is refused with the
/// trimmed text.
pub open spec fn share_text(s: Seq<char>) -> Result<Option<int>, Seq<char>> {
    let t = trim(s);
    if t.len() == 0 {
        Ok(None)
    } else {
        match i32_text(t) {
            Some(m) if m >= 0 => Ok(Some(m)),
            _ => Err(t),
        }
    }
}

/// The message a refused share is given.
pub open spec fn share_error(t: Seq<char>) -> Seq<char> {
    seq!['\''] + t + "' is not a number of minutes"@
}

/// A share of a session's break, as typed: blank is "not assigned", a whole
/// number of minutes from zero on is that share.
pub fn parse_share(text: &str) -> (r: Result<Option<Minutes>, String>)
    ensures
        match share_text(text@) {
            Ok(None) => r == Ok::<Option<Minutes>, String>(None),
            Ok(Some(m)) => r matches Ok(Some(x)) && x.0 == m,
            Err(t) => r matches Err(e) && e@ == share_error(t),
        },
{
    let v = chars_of(text);
    let (a, b) = trim_bounds(&v, 0, v.len());
    proof {
        assert(v@.subrange(0, v@.len() as int) =~= text@);
    }
    if a == b {
        return Ok(None);
    }
    match parse_int(&v, a, b) {
        Some(m) => {
            if 0 <= m && m <= 0x7fff_ffff {
                return Ok(Some(Minutes(m as i32)));
            }
        },
        None => {},
    }
    proof {
        reveal_strlit("'");
    }
    let mut e = String::from_str("'");
    let t = string_of(&v, a, b);
    push_str(&mut e, t.as_str());
    push_str(&mut e, "' is not a number of minutes");
    proof {
        assert(e@ =~= share_error(trim(text@)));
    }
    Err(e)
}

/// What a label names an entry by: the text before its first two spaces.
pub open spec fn label_name(l: Seq<char>) -> Seq<char> {
    match find_sub(l, seq![' ', ' ']) {
        Some(p) => l.take(p),
        None => l,
    }
}

/// What the break-split box calls entry `i`: its label up to the first two
/// spaces, or `entry N` when there is no label.
pub open spec fn entry_name(labels: Seq<String>, i: int) -> Seq<char> {
    if 0 <= i < labels.len() {
        label_name(labels[i]@)
    } else {
        "entry "@ + decimal((i + 1) as nat)
    }
}

fn name_of(labels: &[String], i: usize) -> (r: String)
    requires
        i < usize::MAX,
    ensures
        r@ == entry_name(labels@, i as int),
{
    if i < labels.len() {
        let v = chars_of(labels[i].as_str());
        let mut k: usize = 0;
        while v.len() > 0 && k < v.len() - 1 && !(v[k] == ' ' && v[k + 1] == ' ')
            invariant
                k <= v.len(),
                forall|j: int| 0 <= j < k ==> #[trigger] v@.subrange(j, j + 2) != seq![' ', ' '],
            decreases v.len() - k,
        {
            proof {
                assert(v@.subrange(k as int, k + 2)[0] == v@[k as int]);
                assert(v@.subrange(k as int, k + 2)[1] == v@[k + 1]);
            }
            k += 1;
        }
        proof {
            let l = labels@[i as int]@;
            assert(v@ == l);
            if v.len() > 0 && k < v.len() - 1 {
                assert(v@.subrange(k as int, k + 2) =~= seq![' ', ' ']);
                crate::import::lemma_find_sub_at(l, seq![' ', ' '], k as int);
            } else if v.len() >= 2 {
                crate::import::lemma_find_sub_at(l, seq![' ', ' '], v@.len() - 1);
            }
        }
        if v.len() > 0 && k < v.len() - 1 {
            string_of(&v, 0, k)
        } else {
            proof {
                assert(v@.subrange(0, v@.len() as int) =~= v@);
            }
            string_of(&v, 0, v.len())
        }
    } else {
        let mut r = String::from_str("entry ");
        push_decimal(&mut r, (i + 1) as u64);
        r
    }
}

/// An integer in decimal, with a `-` when it is negative.
pub open spec fn int_decimal(v: int) -> Seq<char> {
    if v < 0 {
        seq!['-'] + decimal((-v) as nat)
    } else {
        decimal(v as nat)
    }
}

/// Appends `v` in decimal.
pub fn push_int(s: &mut String, v: i32)
    ensures
        final(s)@ == old(s)@ + int_decimal(v as int),
{
    if v < 0 {
        crate::text::push_char(s, '-');
        let m: u64 = (0 - (v as i64)) as u64;
        let ghost mid = s@;
        push_decimal(s, m);
        proof {
            assert(final(s)@ =~= old(s)@ + int_decimal(v as int));
        }
    } else {
        push_decimal(s, v as u64);
    }
}

/// The shares typed into the break-split box, read one by one.
pub open spec fn shares_of(values: Seq<String>) -> Seq<Result<Option<int>, Seq<char>>> {
    Seq::new(values.len(), |i: int| share_text(values[i]@))
}

/// The minutes handed out by hand among the first `n` shares.
pub open spec fn assigned_of(values: Seq<String>, n: int) -> int
    decreases n,
{
    if n <= 0 {
        0
    } else {
        assigned_of(values, n - 1) + match share_text(values[n - 1]@) {
            Ok(Some(m)) => m,
            _ => 0,
        }
    }
}


/// [`assigned_of`] over the values as characters.
pub open spec fn assigned_view(vs: Seq<Seq<char>>, n: int) -> int
    decreases n,
{
    if n <= 0 {
        0
    } else {
        assigned_view(vs, n - 1) + match share_text(vs[n - 1]) {
            Ok(Some(m)) => m,
            _ => 0,
        }
    }
}

/// The values typed into a break-split box, as characters.
pub open spec fn values_view(values: Seq<String>) -> Seq<Seq<char>> {
    Seq::new(values.len(), |i: int| values[i]@)
}

pub proof fn lemma_assigned_view(values: Seq<String>, n: int)
    requires
        0 <= n <= values.len(),
    ensures
        assigned_of(values, n) == assigned_view(values_view(values), n),
    decreases n,
{
    if n > 0 {
        lemma_assigned_view(values, n - 1);
    }
}

/// No share is negative, so neither is what they hand out.
pub proof fn lemma_assigned_nonneg(vs: Seq<Seq<char>>, n: int)
    ensures
        assigned_view(vs, n) >= 0,
    decreases n,
{
    if n > 0 {
        lemma_assigned_nonneg(vs, n - 1);
    }
}

/// The grosses as minutes.
pub open spec fn gross_ints(g: Seq<Minutes>) -> Seq<int> {
    Seq::new(g.len(), |i: int| g[i].0 as int)
}

/// Whether each of the first `n` values reads as a share that is no larger
/// than its entry's gross, where the entry has one.
pub open spec fn shares_capped(vs: Seq<Seq<char>>, gs: Seq<int>, n: int) -> bool
    decreases n,
{
    if n <= 0 {
        true
    } else {
        shares_capped(vs, gs, n - 1) && match share_text(vs[n - 1]) {
            Err(_) => false,
            Ok(Some(m)) => !(n - 1 < gs.len() && m > gs[n - 1]),
            Ok(None) => true,
        }
    }
}

/// Whether the shares of a break-split box with the values `vs` on entries
/// of the grosses `gs` can be checked: once each share has passed its cap,
/// their sum fits in `i32`.
pub open spec fn split_fits(vs: Seq<Seq<char>>, gs: Seq<int>) -> bool {
    &&& vs.len() < usize::MAX
    &&& shares_capped(vs, gs, vs.len() as int) ==> assigned_view(vs, vs.len() as int) <= i32::MAX
}

/// Whether checking `values` against `grosses` can add its shares up: the
/// test behind [`split_fits`].
pub fn split_sums_fit(values: &[String], grosses: &[Minutes]) -> (r: bool)
    ensures
        r == split_fits(values_view(values@), gross_ints(grosses@)),
{
    let ghost vs = values_view(values@);
    let ghost gs = gross_ints(grosses@);
    if values.len() == usize::MAX {
        return false;
    }
    let mut i: usize = 0;
    while i < values.len()
        invariant
            i <= values@.len() < usize::MAX,
            vs == values_view(values@),
            gs == gross_ints(grosses@),
            shares_capped(vs, gs, i as int),
        decreases values.len() - i,
    {
        proof {
            assert(vs[i as int] == values@[i as int]@);
            if (i as int) < grosses@.len() {
                assert(gs[i as int] == grosses@[i as int].0);
            }
        }
        match parse_share(values[i].as_str()) {
            Err(_) => {
                proof {
                    assert(!shares_capped(vs, gs, i + 1));
                    lemma_capped_stays_false(vs, gs, i + 1, values@.len() as int);
                }
                return true;
            },
            Ok(Some(s)) => {
                if i < grosses.len() && s.0 > grosses[i].0 {
                    proof {
                        assert(!shares_capped(vs, gs, i + 1));
                        lemma_capped_stays_false(vs, gs, i + 1, values@.len() as int);
                    }
                    return true;
                }
            },
            Ok(None) => {},
        }
        i += 1;
    }
    let mut total: i64 = 0;
    let mut k: usize = 0;
    while k < values.len()
        invariant
            k <= values@.len(),
            vs == values_view(values@),
            gs == gross_ints(grosses@),
            values@.len() < usize::MAX,
            shares_capped(vs, gs, values@.len() as int),
            total == assigned_view(vs, k as int),
            total <= i32::MAX,
        decreases values.len() - k,
    {
        proof {
            assert(vs[k as int] == values@[k as int]@);
        }
        if let Ok(Some(s)) = parse_share(values[k].as_str()) {
            total = total + s.0 as i64;
        }
        if total > 0x7fff_ffff {
            proof {
                lemma_assigned_mono(vs, k + 1, values@.len() as int);
            }
            return false;
        }
        k += 1;
    }
    true
}

/// Once a share fails its cap, the box fails them all.
proof fn lemma_capped_stays_false(vs: Seq<Seq<char>>, gs: Seq<int>, i: int, n: int)
    requires
        0 <= i <= n,
        !shares_capped(vs, gs, i),
    ensures
        !shares_capped(vs, gs, n),
    decreases n - i,
{
    if n > i {
        lemma_capped_stays_false(vs, gs, i, n - 1);
    }
}

/// The box has nothing to refuse exactly where every share passes its cap.
pub proof fn lemma_problem_capped(values: Seq<String>, labels: Seq<String>, grosses: Seq<Minutes>, n: int)
    requires
        0 <= n <= values.len(),
    ensures
        (split_problem(values, labels, grosses, n) is None) == shares_capped(values_view(values), gross_ints(grosses), n),
    decreases n,
{
    if n > 0 {
        lemma_problem_capped(values, labels, grosses, n - 1);
        assert(values_view(values)[n - 1] == values[n - 1]@);
        if n - 1 < grosses.len() {
            assert(gross_ints(grosses)[n - 1] == grosses[n - 1].0);
        }
    }
}

/// Adding shares never makes the sum smaller.
pub proof fn lemma_assigned_mono(vs: Seq<Seq<char>>, i: int, j: int)
    requires
        0 <= i <= j,
    ensures
        assigned_view(vs, i) <= assigned_view(vs, j),
    decreases j - i,
{
    if i < j {
        lemma_assigned_mono(vs, i, j - 1);
    }
}

/// Where the box has nothing to refuse, every value reads as a share.
pub proof fn lemma_no_problem(values: Seq<String>, labels: Seq<String>, grosses: Seq<Minutes>, n: int)
    requires
        0 <= n <= values.len(),
        split_problem(values, labels, grosses, n) is None,
    ensures
        forall|i: int| 0 <= i < n ==> share_text(#[trigger] values[i]@) is Ok,
    decreases n,
{
    if n > 0 {
        lemma_no_problem(values, labels, grosses, n - 1);
    }
}

/// The shares read from the values hand out what [`assigned_of`] counts.
pub proof fn lemma_shares_total(s: Seq<Option<Minutes>>, values: Seq<String>, labels: Seq<String>, grosses: Seq<Minutes>, n: int)
    requires
        0 <= n <= values.len(),
        split_problem(values, labels, grosses, values.len() as int) is None,
        shares_view(s) == Seq::new(values.len(), |i: int| share_text(values[i]@)->Ok_0),
    ensures
        assigned_total(s.take(n)) == assigned_of(values, n),
    decreases n,
{
    lemma_no_problem(values, labels, grosses, values.len() as int);
    assert(s.len() == shares_view(s).len());
    if n > 0 {
        lemma_shares_total(s, values, labels, grosses, n - 1);
        assert(s.take(n).last() == s[n - 1]);
        assert(s.take(n).drop_last() =~= s.take(n - 1));
        assert(shares_view(s)[n - 1] == share_text(values[n - 1]@)->Ok_0);
        assert(share_text(values[n - 1]@) is Ok);
    } else {
        assert(s.take(0) =~= Seq::<Option<Minutes>>::empty());
    }
}

/// What the break-split box says of the values typed: the first share that
/// is not minutes, or larger than its entry, refuses the box with the
/// entry's name; so does a total above the session's deduction.
pub open spec fn split_problem(
    values: Seq<String>,
    labels: Seq<String>,
    grosses: Seq<Minutes>,
    n: int,
) -> Option<Seq<char>>
    decreases n,
{
    if n <= 0 {
        None
    } else {
        match split_problem(values, labels, grosses, n - 1) {
            Some(p) => Some(p),
            None => {
                let i = n - 1;
                match share_text(values[i]@) {
                    Err(t) => Some(entry_name(labels, i) + ": "@ + share_error(t)),
                    Ok(Some(m)) => if i < grosses.len() && m > grosses[i].0 {
                        Some(
                            entry_name(labels, i) + ": at most "@ + int_decimal(grosses[i].0 as int)
                                + " minutes — that is all it is long"@,
                        )
                    } else {
                        None
                    },
                    Ok(None) => None,
                }
            },
        }
    }
}

/// The shares as minutes.
pub open spec fn shares_view(s: Seq<Option<Minutes>>) -> Seq<Option<int>> {
    Seq::new(
        s.len(),
        |i: int|
            match s[i] {
                Some(m) => Some(m.0 as int),
                None => None,
            },
    )
}

/// The message of a total above the deduction.
pub open spec fn over_assigned(a: int, d: int, f: HoursFormat) -> Seq<char> {
    "assigned "@ + unsigned_text(abs(a) as nat, f) + " of "@ + unsigned_text(abs(d) as nat, f)
        + " — more than this session's break"@
}

proof fn lemma_split_problem_stable(
    values: Seq<String>,
    labels: Seq<String>,
    grosses: Seq<Minutes>,
    i: int,
    n: int,
)
    requires
        0 <= i <= n,
        split_problem(values, labels, grosses, i) is Some,
    ensures
        split_problem(values, labels, grosses, n) == split_problem(values, labels, grosses, i),
    decreases n - i,
{
    if n > i {
        lemma_split_problem_stable(values, labels, grosses, i, n - 1);
    }
}

/// Reads the break-split fields back as shares, or says why they are not
/// usable: a share is a number of minutes, no larger than the entry it sits
/// on, and together they may not come to more than the session loses.
/// Everything left unassigned falls to the default rule, so an empty box is
/// always valid.
pub fn validate_break_split(
    values: &[String],
    labels: &[String],
    grosses: &[Minutes],
    deduction: Minutes,
    f: HoursFormat,
) -> (r: Result<Vec<Option<Minutes>>, String>)
    requires
        split_fits(values_view(values@), gross_ints(grosses@)),
    ensures
        match split_problem(values@, labels@, grosses@, values@.len() as int) {
            Some(p) => r matches Err(e) && e@ == p,
            None => if assigned_of(values@, values@.len() as int) > deduction.0 {
                r matches Err(e) && e@ == over_assigned(
                    assigned_of(values@, values@.len() as int),
                    deduction.0 as int,
                    f,
                )
            } else {
                r matches Ok(s) && shares_view(s@) == Seq::new(
                    values@.len(),
                    |i: int| share_text(values@[i]@)->Ok_0,
                )
            },
        },
{
    let mut shares: Vec<Option<Minutes>> = Vec::new();
    let mut i: usize = 0;
    while i < values.len()
        invariant
            i <= values@.len() < usize::MAX,
            split_problem(values@, labels@, grosses@, i as int) is None,
            shares@.len() == i,
            shares_view(shares@) == Seq::new(i as nat, |k: int| share_text(values@[k]@)->Ok_0),
        decreases values.len() - i,
    {
        match parse_share(values[i].as_str()) {
            Err(e) => {
                let mut m = name_of(labels, i);
                push_str(&mut m, ": ");
                push_str(&mut m, e.as_str());
                proof {
                    lemma_split_problem_stable(values@, labels@, grosses@, i + 1, values@.len() as int);
                }
                return Err(m);
            },
            Ok(share) => {
                if let Some(s) = share {
                    if i < grosses.len() && s.0 > grosses[i].0 {
                        let mut m = name_of(labels, i);
                        push_str(&mut m, ": at most ");
                        push_int(&mut m, grosses[i].0);
                        push_str(&mut m, " minutes — that is all it is long");
                        proof {
                            lemma_split_problem_stable(
                                values@,
                                labels@,
                                grosses@,
                                i + 1,
                                values@.len() as int,
                            );
                        }
                        return Err(m);
                    }
                }
                let ghost sv = shares@;
                shares.push(share);
                proof {
                    let want = Seq::new((i + 1) as nat, |k: int| share_text(values@[k]@)->Ok_0);
                    let before = Seq::new(i as nat, |k: int| share_text(values@[k]@)->Ok_0);
                    assert forall|k: int| 0 <= k < i + 1 implies #[trigger] shares_view(shares@)[k]
                        == want[k] by {
                        if k < i {
                            assert(shares@[k] == sv[k]);
                            assert(shares_view(sv)[k] == before[k]);
                        }
                    }
                    assert(shares_view(shares@) =~= want);
                }
            },
        }
        i += 1;
    }
    let ghost vs = values_view(values@);
    proof {
        lemma_problem_capped(values@, labels@, grosses@, values@.len() as int);
        lemma_assigned_view(values@, values@.len() as int);
    }
    let mut total: i64 = 0;
    let mut k: usize = 0;
    while k < shares.len()
        invariant
            k <= shares@.len() == values@.len(),
            split_problem(values@, labels@, grosses@, values@.len() as int) is None,
            shares_view(shares@) == Seq::new(values@.len(), |q: int| share_text(values@[q]@)->Ok_0),
            assigned_of(values@, values@.len() as int) <= i32::MAX,
            vs == values_view(values@),
            total == assigned_of(values@, k as int),
        decreases shares.len() - k,
    {
        proof {
            lemma_shares_total(shares@, values@, labels@, grosses@, k + 1);
            lemma_shares_total(shares@, values@, labels@, grosses@, k as int);
            assert(shares@.take(k + 1).drop_last() =~= shares@.take(k as int));
            assert(shares@.take(k + 1).last() == shares@[k as int]);
            lemma_assigned_view(values@, k + 1);
            lemma_assigned_mono(vs, k + 1, values@.len() as int);
            lemma_assigned_nonneg(vs, k as int);
            lemma_assigned_view(values@, k as int);
            lemma_assigned_view(values@, values@.len() as int);
            assert(assigned_of(values@, k + 1) <= assigned_of(values@, values@.len() as int));
            assert(assigned_total(shares@.take(k + 1)) == assigned_total(shares@.take(k as int)) + match shares@[k as int] {
                Some(m) => m.0 as int,
                None => 0,
            });
        }
        if let Some(s) = shares[k] {
            total = total + s.0 as i64;
        }
        k += 1;
    }
    if total > deduction.0 as i64 {
        let a = Minutes(total as i32);
        let mut m = String::from_str("assigned ");
        push_str(&mut m, a.fmt_unsigned(f).as_str());
        push_str(&mut m, " of ");
        push_str(&mut m, deduction.fmt_unsigned(f).as_str());
        push_str(&mut m, " — more than this session's break");
        return Err(m);
    }
    Ok(shares)
}

/// The minutes handed out by hand.
pub open spec fn assigned_total(s: Seq<Option<Minutes>>) -> int
    decreases s.len(),
{
    if s.len() == 0 {
        0
    } else {
        assigned_total(s.drop_last()) + match s.last() {
            Some(m) => m.0 as int,
            None => 0,
        }
    }
}

/// The footer of a break-split box that validates: how much of the
/// deduction has been handed out by hand.
pub fn break_split_footer(shares: &[Option<Minutes>], deduction: Minutes, f: HoursFormat) -> (r:
    String)
    requires
        forall|n: int|
            0 <= n <= shares@.len() ==> i32::MIN <= #[trigger] assigned_total(shares@.take(n))
                <= i32::MAX,
    ensures
        r@ == "assigned "@ + unsigned_text(abs(assigned_total(shares@)) as nat, f) + " / "@
            + unsigned_text(abs(deduction.0 as int) as nat, f),
{
    let mut total: i32 = 0;
    let mut i: usize = 0;
    proof {
        assert(shares@.take(0) =~= Seq::<Option<Minutes>>::empty());
    }
    while i < shares.len()
        invariant
            i <= shares@.len(),
            total == assigned_total(shares@.take(i as int)),
            forall|n: int|
                0 <= n <= shares@.len() ==> i32::MIN <= #[trigger] assigned_total(shares@.take(n))
                    <= i32::MAX,
        decreases shares.len() - i,
    {
        proof {
            assert(shares@.take(i + 1).drop_last() =~= shares@.take(i as int));
            assert(shares@.take(i + 1).last() == shares@[i as int]);
            let _ = assigned_total(shares@.take(i + 1));
        }
        if let Some(m) = shares[i] {
            total = total + m.0;
        }
        i += 1;
    }
    proof {
        assert(shares@.take(shares@.len() as int) =~= shares@);
    }
    let mut r = String::from_str("assigned ");
    push_str(&mut r, Minutes(total).fmt_unsigned(f).as_str());
    push_str(&mut r, " / ");
    push_str(&mut r, deduction.fmt_unsigned(f).as_str());
    r
}

/// The four raw field values of the settings overlay, as typed.
#[derive(Debug, PartialEq, Eq, Default)]
pub struct SettingsData {
    pub start: String,
    pub balance: String,
    pub target: String,
    pub vacation: String,
}

impl Clone for SettingsData {
    fn clone(&self) -> (r: SettingsData)
        ensures
            r == *self,
    {
        SettingsData {
            start: self.start.clone(),
            balance: self.balance.clone(),
            target: self.target.clone(),
            vacation: self.vacation.clone(),
        }
    }
}

/// What saving the settings would set: the balance, the target and the
/// vacation days.
pub open spec fn settings_line(balance: int, target: int, vacation: nat, f: HoursFormat) -> Seq<char> {
    "balance "@ + signed_text(balance, f) + " · target "@ + unsigned_text(abs(target) as nat, f) + " · vacation "@
        + decimal(vacation)
}

/// The footer line of a settings overlay that validates: what saving would
/// set.
pub fn settings_footer(patch: &ConfigPatch, f: HoursFormat) -> (r: String)
    ensures
        r@ == settings_line(
            match patch.initial_balance_minutes {
                Some(b) => b as int,
                None => 0,
            },
            match patch.daily_target_minutes {
                Some(t) => t as int,
                None => 0,
            },
            match patch.vacation_days_per_year {
                Some(v) => v as nat,
                None => 0,
            },
            f,
        ),
{
    let b = match patch.initial_balance_minutes {
        Some(b) => b,
        None => 0,
    };
    let t = match patch.daily_target_minutes {
        Some(t) => t,
        None => 0,
    };
    let v = match patch.vacation_days_per_year {
        Some(v) => v,
        None => 0,
    };
    let mut r = String::from_str("balance ");
    push_str(&mut r, Minutes(b).fmt_signed(f).as_str());
    push_str(&mut r, " · target ");
    push_str(&mut r, Minutes(t).fmt_unsigned(f).as_str());
    push_str(&mut r, " · vacation ");
    push_decimal(&mut r, v as u64);
    r
}

/// What the settings overlay makes of its fields, given today's day number:
/// the patch, or the message naming the first field that is wrong.
pub open spec fn settings_result(d: SettingsData, today: int) -> Result<
    (int, int, int, int),
    Seq<char>,
> {
    match date_text(d.start@, today) {
        None => Err("start: '"@ + d.start@ + "' is not a date (try 2026-09-15 or today)"@),
        Some(start) => match minutes_text(trim(d.balance@)) {
            None => Err("balance: '"@ + d.balance@ + "' is not ±HH:MM (try +12:30)"@),
            Some(balance) => match minutes_text(trim(d.target@)) {
                None => Err("target: '"@ + d.target@ + "' is not HH:MM (try 07:48)"@),
                Some(target) => if target <= 0 {
                    Err("target: must be greater than 0"@)
                } else {
                    match u32_text(trim(d.vacation@)) {
                        None => Err("vacation: '"@ + d.vacation@ + "' is not a number of days"@),
                        Some(vacation) => Ok((start, balance, target, vacation)),
                    }
                },
            },
        },
    }
}

/// Turns the raw settings fields into a patch, naming the field that is
/// wrong in the entry form's wording: `field: what is wrong`.
pub fn validate_settings(d: &SettingsData, today: Date) -> (r: Result<ConfigPatch, String>)
    ensures
        match settings_result(*d, today.num()) {
            Err(m) => r matches Err(e) && e@ == m,
            Ok(v) => r matches Ok(p) && (p.start_date matches Some(s) && s.num() == v.0)
                && p.initial_balance_minutes == Some(v.1 as i32) && p.daily_target_minutes == Some(
                v.2 as i32,
            ) && p.vacation_days_per_year == Some(v.3 as u32) && p.hours_format is None,
        },
{
    let start = match parse_date(d.start.as_str(), today) {
        Ok(s) => s,
        Err(_) => {
            let mut m = String::from_str("start: '");
            push_str(&mut m, d.start.as_str());
            push_str(&mut m, "' is not a date (try 2026-09-15 or today)");
            return Err(m);
        },
    };
    let bt = trimmed(d.balance.as_str());
    let balance = match Minutes::parse(bt.as_str()) {
        Ok(b) => b,
        Err(_) => {
            let mut m = String::from_str("balance: '");
            push_str(&mut m, d.balance.as_str());
            push_str(&mut m, "' is not ±HH:MM (try +12:30)");
            return Err(m);
        },
    };
    let tt = trimmed(d.target.as_str());
    let target = match Minutes::parse(tt.as_str()) {
        Ok(t) => t,
        Err(_) => {
            let mut m = String::from_str("target: '");
            push_str(&mut m, d.target.as_str());
            push_str(&mut m, "' is not HH:MM (try 07:48)");
            return Err(m);
        },
    };
    if target.0 <= 0 {
        return Err(String::from_str("target: must be greater than 0"));
    }
    let vt = chars_of(trimmed(d.vacation.as_str()).as_str());
    proof {
        assert(vt@.subrange(0, vt@.len() as int) =~= vt@);
    }
    let vacation = match parse_u32(&vt, 0, vt.len()) {
        Some(v) => v,
        None => {
            let mut m = String::from_str("vacation: '");
            push_str(&mut m, d.vacation.as_str());
            push_str(&mut m, "' is not a number of days");
            return Err(m);
        },
    };
    Ok(
        ConfigPatch {
            start_date: Some(start),
            initial_balance_minutes: Some(balance.0),
            daily_target_minutes: Some(target.0),
            vacation_days_per_year: Some(vacation),
            hours_format: None,
        },
    )
}

/// The raw fields of the entry form, as typed; `id` is the entry being
/// edited, if any.
#[derive(Debug, PartialEq, Eq, Default)]
pub struct FormData {
    pub id: Option<i64>,
    pub start: String,
    pub end: String,
    pub project: String,
    pub comment: String,
}

impl Clone for FormData {
    fn clone(&self) -> (r: FormData)
        ensures
            r == *self,
    {
        FormData {
            id: self.id,
            start: self.start.clone(),
            end: self.end.clone(),
            project: self.project.clone(),
            comment: self.comment.clone(),
        }
    }
}

/// The entries of a day other than the one being edited.
pub open spec fn others(existing: Seq<Entry>, id: Option<i64>) -> Seq<Entry>
    decreases existing.len(),
{
    if existing.len() == 0 {
        existing
    } else if id == Some(existing.last().id) {
        others(existing.drop_last(), id)
    } else {
        others(existing.drop_last(), id).push(existing.last())
    }
}

/// The intervals of the day as saving the form would leave it: every other
/// entry, then the one in the form.
pub open spec fn form_intervals(existing: Seq<Entry>, id: Option<i64>, s: int, e: int) -> Seq<(i32, i32)> {
    entry_intervals(others(existing, id)).push((span(s, e).0 as i32, span(s, e).1 as i32))
}

/// What the entry form makes of its fields: start and end (hour, minute),
/// the entry's gross, the day's deduction and the day's net; or the message
/// of the first thing wrong.
pub open spec fn form_result(d: FormData, existing: Seq<Entry>, t: Seq<BreakTier>) -> Result<
    ((int, int), (int, int), int, int, int),
    Seq<char>,
> {
    match time_text(d.start@) {
        None => Err("start: '"@ + d.start@ + "' is not a time (try 800 or 8:00)"@),
        Some(a) => match time_text(d.end@) {
            None => Err("end: '"@ + d.end@ + "' is not a time (try 1730 or 17:30)"@),
            Some(b) => {
                let s = a.0 * 60 + a.1;
                let e = b.0 * 60 + b.1;
                if s == e {
                    Err(
                        "end: must differ from start (use a later time, or an earlier one to cross midnight)"@,
                    )
                } else if trim(d.project@).len() == 0 {
                    Err("project: required"@)
                } else if overlaps(existing, span(s, e).0, span(s, e).1, d.id) {
                    Err("overlaps an existing entry"@)
                } else {
                    let g = span(s, e).1 - span(s, e).0;
                    let gross = total(grosses(others(existing, d.id))) + g;
                    let ded = sessions_deduction(sessions_of(form_intervals(existing, d.id, s, e)), t);
                    Ok((a, b, g, ded, max(gross - ded, 0)))
                }
            },
        },
    }
}

/// The bounds the entry form's arithmetic needs of the day it is checked
/// against: few enough entries, and the day's sums within an `i32` for any
/// start and end the form could hold.
pub open spec fn form_fits(existing: Seq<Entry>, id: Option<i64>, t: Seq<BreakTier>) -> bool {
    &&& existing.len() < u32::MAX
    &&& total(grosses(existing)) <= i32::MAX - 1440
    &&& forall|s: int, e: int|
        0 <= s < 1440 && 0 <= e < 1440 ==> #[trigger] session_lengths_fit(
            form_intervals(existing, id, s, e),
        )
    &&& forall|s: int, e: int|
        0 <= s < 1440 && 0 <= e < 1440 ==> {
            let ded = #[trigger] sessions_deduction(
                sessions_of(form_intervals(existing, id, s, e)),
                t,
            );
            &&& i32::MIN <= ded <= i32::MAX
            &&& i32::MIN <= total(grosses(others(existing, id))) + (span(s, e).1 - span(s, e).0)
                - ded <= i32::MAX
        }
}

/// Validates the entry form against the day's other entries; gives start,
/// end, the entry's gross, the day's deduction and the day's net.
pub fn validate_form(d: &FormData, existing: &[Entry], rules: &crate::balance::Rules) -> (r: Result<
    (Time, Time, Minutes, Minutes, Minutes),
    String,
>)
    requires
        form_fits(existing@, d.id, rules.tiers@),
    ensures
        match form_result(*d, existing@, rules.tiers@) {
            Err(m) => r matches Err(x) && x@ == m,
            Ok(v) => r matches Ok(x) && (x.0@.0, x.0@.1) == v.0 && (x.1@.0, x.1@.1) == v.1
                && x.2.0 == v.2 && x.3.0 == v.3 && x.4.0 == v.4,
        },
{
    let start = match parse_time(d.start.as_str()) {
        Ok(t) => t,
        Err(_) => {
            let mut m = String::from_str("start: '");
            push_str(&mut m, d.start.as_str());
            push_str(&mut m, "' is not a time (try 800 or 8:00)");
            return Err(m);
        },
    };
    let end = match parse_time(d.end.as_str()) {
        Ok(t) => t,
        Err(_) => {
            let mut m = String::from_str("end: '");
            push_str(&mut m, d.end.as_str());
            push_str(&mut m, "' is not a time (try 1730 or 17:30)");
            return Err(m);
        },
    };
    start.valid();
    end.valid();
    if check_range(start, end).is_err() {
        return Err(
            String::from_str(
                "end: must differ from start (use a later time, or an earlier one to cross midnight)",
            ),
        );
    }
    if trimmed(d.project.as_str()).as_str().is_empty() {
        return Err(String::from_str("project: required"));
    }
    if check_overlap(existing, start, end, d.id).is_err() {
        return Err(String::from_str("overlaps an existing entry"));
    }
    let s = start.minute_of_day();
    let mut e = end.minute_of_day();
    if e <= s {
        e += 1440;
    }
    let gross_this = Minutes(e - s);
    let mut ivs: Vec<(i32, i32)> = Vec::new();
    let mut gross: i64 = 0;
    let mut i: usize = 0;
    let ghost ex = existing@;
    let _ = crate::breaks::intervals_of(existing);
    proof {
        crate::balance::lemma_sane_grosses(ex);
        assert forall|k: int| 0 <= k < grosses(ex).len() implies 0 <= #[trigger] grosses(ex)[k] by {}
        crate::balance::lemma_total_prefix(grosses(ex), 0);
    }
    while i < existing.len()
        invariant
            i <= existing@.len() < u32::MAX,
            ex == existing@,
            ivs@ == entry_intervals(others(ex.take(i as int), d.id)),
            ivs@.len() <= i,
            gross == total(grosses(others(ex.take(i as int), d.id))),
            0 <= gross <= total(grosses(ex.take(i as int))),
            total(grosses(ex.take(i as int))) <= total(grosses(ex)),
            total(grosses(ex)) <= i32::MAX - 1440,
            forall|k: int| 0 <= k < grosses(ex).len() ==> 1 <= #[trigger] grosses(ex)[k] <= 1440,
        decreases existing.len() - i,
    {
        let x = &existing[i];
        let du = x.duration();
        proof {
            assert(ex.take(i + 1).drop_last() =~= ex.take(i as int));
            assert(ex.take(i + 1).last() == ex[i as int]);
            lemma_grosses_prefix(ex, i as int);
            assert(grosses(ex)[i as int] == ex[i as int].len());
            assert forall|k: int| 0 <= k < grosses(ex).len() implies 0 <= #[trigger] grosses(ex)[k] by {}
            crate::balance::lemma_total_prefix(grosses(ex), i + 1);
            assert(grosses(ex.take(i + 1)) =~= grosses(ex).take(i + 1));
        }
        let skip = match d.id {
            Some(id) => id == x.id,
            None => false,
        };
        if !skip {
            let iv = x.interval();
            let ghost before = ivs@;
            ivs.push(iv);
            gross = gross + du.0 as i64;
            proof {
                let o = others(ex.take(i as int), d.id);
                assert(entry_intervals(o.push(*x)) =~= entry_intervals(o).push(iv));
                assert(grosses(o.push(*x)) =~= grosses(o).push(x.len()));
                assert(grosses(o).push(x.len()).drop_last() =~= grosses(o));
            }
        }
        i += 1;
    }
    proof {
        assert(ex.take(ex.len() as int) =~= ex);
    }
    let ghost base = ivs@;
    ivs.push((s, e));
    proof {
        assert(ivs@ == form_intervals(existing@, d.id, start.mins(), end.mins()));
    }
    let day_gross = gross as i32 + gross_this.0;
    let ded = session_deduction(&ivs, &rules.tiers);
    let n = day_gross - ded.0;
    let net = Minutes(if n < 0 {
        0
    } else {
        n
    });
    Ok((start, end, gross_this, ded, net))
}

/// The grosses of a prefix add up to no more than those of the prefix one
/// longer.
proof fn lemma_grosses_prefix(e: Seq<Entry>, i: int)
    requires
        0 <= i < e.len(),
    ensures
        total(grosses(e.take(i + 1))) == total(grosses(e.take(i))) + e[i].len(),
{
    assert(grosses(e.take(i + 1)).drop_last() =~= grosses(e.take(i)));
}

} // verus!
