//! What the store answers the screens: the line that says what a write did,
//! the figures a booking reports, and the list the projects screen shows.
use crate::booking::{distinct_names, max_end, min_start, names_at, session_of, session_summary};
use crate::breaks::{BreakTier, entry_intervals, sessions_of, tier_deduction};
use crate::date::{Date, Time, iso_date_text};
use crate::minutes::{HoursFormat, Minutes, signed_text};
use crate::report::{clock_string, clock_text};
use crate::screen::{ProjectsData, StoreReply};
use crate::holidays::name_lt;
use crate::tally::{amounts, name_less, tallies, tally_days, tally_view, worked};
use crate::breaks::total;
use crate::text::{decimal, push_decimal, push_str, same_text};
use crate::types::{Day, DayKind, Entry, Project, kind_display};
use crate::ui::{lowercase, lowercase_text};
use vstd::multiset::Multiset;
use vstd::prelude::*;
use vstd::seq_lib::to_multiset_build;
use vstd::seq_lib::to_multiset_insert;

verus! {

/// `HH:MM–HH:MM project` of an entry.
pub open spec fn booked_span(e: Entry) -> Seq<char> {
    clock_text(e.start) + "–"@ + clock_text(e.end) + " "@ + e.project@
}

fn push_span(s: &mut String, e: &Entry)
    ensures
        final(s)@ == old(s)@ + booked_span(*e),
{
    push_str(s, clock_string(e.start).as_str());
    push_str(s, "–");
    push_str(s, clock_string(e.end).as_str());
    push_str(s, " ");
    push_str(s, e.project.as_str());
    proof {
        reveal_strlit("–");
        reveal_strlit(" ");
        assert(final(s)@ =~= old(s)@ + booked_span(*e));
    }
}

/// What adding entry `e` says.
pub fn added_text(e: &Entry) -> (r: String)
    ensures
        r@ == "Added "@ + booked_span(*e),
{
    let mut s = String::from_str("Added ");
    push_span(&mut s, e);
    s
}

/// What updating entry `e` says.
pub fn updated_text(e: &Entry) -> (r: String)
    ensures
        r@ == "Updated "@ + booked_span(*e),
{
    let mut s = String::from_str("Updated ");
    push_span(&mut s, e);
    s
}

/// What setting day `d` to `kind` says.
pub fn kind_set_text(d: Date, kind: &DayKind) -> (r: String)
    ensures
        r@ == iso_date_text(d@) + " set to "@ + lowercase_text(kind_display(kind@)),
{
    let mut s = d.to_text();
    push_str(&mut s, " set to ");
    let name = kind.display_name();
    push_str(&mut s, lowercase(name.as_str()).as_str());
    s
}

/// What clocking in on `project` at `t` says.
pub fn clocked_in_text(project: &str, t: Time) -> (r: String)
    ensures
        r@ == "Clocked in on "@ + project@ + " at "@ + clock_text(t),
{
    let mut s = String::from_str("Clocked in on ");
    push_str(&mut s, project);
    push_str(&mut s, " at ");
    push_str(&mut s, clock_string(t).as_str());
    s
}

/// What booking `e` and going on with `now_on` says.
pub fn switched_text(e: &Entry, now_on: &str) -> (r: String)
    ensures
        r@ == "Booked "@ + booked_span(*e) + " · now on "@ + now_on@,
{
    let mut s = String::from_str("Booked ");
    push_span(&mut s, e);
    push_str(&mut s, " · now on ");
    push_str(&mut s, now_on);
    s
}

/// What clocking out with entry `e` booked says: its span, its project and
/// its length.
pub fn clocked_out_text(e: &Entry) -> (r: String)
    ensures
        r@ == "Clocked out: "@ + booked_span(*e) + " ("@ + signed_text(e.len(), HoursFormat::Hm) + ")"@,
{
    let mut s = String::from_str("Clocked out: ");
    push_span(&mut s, e);
    push_str(&mut s, " (");
    push_str(&mut s, e.duration().to_string().as_str());
    push_str(&mut s, ")");
    s
}

/// What taking a break after booking `e` says, the break having begun at
/// `since`.
pub fn break_text(e: &Entry, since: Time) -> (r: String)
    ensures
        r@ == "Booked "@ + booked_span(*e) + " · on break since "@ + clock_text(since),
{
    let mut s = String::from_str("Booked ");
    push_span(&mut s, e);
    push_str(&mut s, " · on break since ");
    push_str(&mut s, clock_string(since).as_str());
    s
}

/// What resuming on `project` (the remembered one where it is `None`) at
/// `at` says.
pub fn resumed_text(project: Option<&str>, at: Time) -> (r: String)
    ensures
        r@ == "Resumed "@ + match project {
            Some(p) => p@,
            None => "the last project"@,
        } + " at "@ + clock_text(at),
{
    let mut s = String::from_str("Resumed ");
    match project {
        Some(p) => push_str(&mut s, p),
        None => push_str(&mut s, "the last project"),
    }
    push_str(&mut s, " at ");
    push_str(&mut s, clock_string(at).as_str());
    s
}

/// What archiving or unarchiving project `name` says.
pub fn archived_text(name: &str, archived: bool) -> (r: String)
    ensures
        r@ == name@ + if archived {
            " archived"@
        } else {
            " unarchived"@
        },
{
    let mut s = String::from_str(name);
    push_str(&mut s, if archived { " archived" } else { " unarchived" });
    s
}

/// What renaming project `old` to `new` says.
pub fn renamed_text(old: &str, new: &str) -> (r: String)
    ensures
        r@ == old@ + " renamed to "@ + new@,
{
    let mut s = String::from_str(old);
    push_str(&mut s, " renamed to ");
    push_str(&mut s, new);
    s
}

/// What adding project `name` says.
pub fn project_added_text(name: &str) -> (r: String)
    ensures
        r@ == name@ + " added"@,
{
    let mut s = String::from_str(name);
    push_str(&mut s, " added");
    s
}

/// What marking `n` weekdays as `kind` says.
pub fn weekdays_set_text(n: u64, kind: &DayKind) -> (r: String)
    ensures
        r@ == decimal(n as nat) + " weekday"@ + (if n == 1 {
            Seq::empty()
        } else {
            "s"@
        }) + " set to "@ + lowercase_text(kind_display(kind@)),
{
    let mut s = String::new();
    push_decimal(&mut s, n);
    push_str(&mut s, " weekday");
    if n != 1 {
        push_str(&mut s, "s");
    }
    push_str(&mut s, " set to ");
    let name = kind.display_name();
    push_str(&mut s, lowercase(name.as_str()).as_str());
    proof {
        reveal_strlit("s");
        assert(s@ =~= decimal(n as nat) + " weekday"@ + (if n == 1 {
            Seq::empty()
        } else {
            "s"@
        }) + " set to "@ + lowercase_text(kind_display(kind@)));
    }
    s
}

/// Why a range of days ending on `to` and starting on `from` is refused:
/// it ends before it starts.
pub fn range_order_refusal(from: Date, to: Date) -> (r: Option<String>)
    ensures
        r is Some <==> to.num() < from.num(),
        r matches Some(t) ==> t@ == "--to must not be before DATE"@,
{
    if to.before(&from) {
        Some(String::from_str("--to must not be before DATE"))
    } else {
        None
    }
}

/// The project a clock-in goes to: the one named, else the one used last;
/// with neither, the refusal that asks for one.
pub fn clock_in_project(named: Option<String>, last: Option<String>) -> (r: Result<String, String>)
    ensures
        named matches Some(p) ==> (r matches Ok(q) && q@ == p@),
        named is None ==> (last matches Some(p) ==> (r matches Ok(q) && q@ == p@)),
        named is None && last is None ==> (r matches Err(e) && e@ == "no project yet; pass --project NAME"@),
{
    match named {
        Some(p) => Ok(p),
        None => match last {
            Some(p) => Ok(p),
            None => Err(String::from_str("no project yet; pass --project NAME")),
        },
    }
}

/// Why switching the running clock to `target` is refused: during a break
/// the way back is clocking in, and the project already running needs no
/// switch.
pub fn switch_refusal(on_break: bool, current: &Option<String>, target: &str) -> (r: Option<String>)
    ensures
        on_break ==> (r matches Some(t) && t@ == "on break; use tk in -p PROJECT"@),
        !on_break ==> (r is Some <==> (current matches Some(c) && c@ == target@)),
        !on_break ==> (r matches Some(t) ==> t@ == "already on "@ + target@),
{
    if on_break {
        return Some(String::from_str("on break; use tk in -p PROJECT"));
    }
    match current {
        Some(c) => {
            if same_text(c.as_str(), target) {
                let mut s = String::from_str("already on ");
                push_str(&mut s, target);
                Some(s)
            } else {
                None
            }
        },
        None => None,
    }
}

/// Why the type of `date` cannot be changed while `n` entries are on it:
/// they have to go first.
pub fn kind_change_refusal(date: Date, n: u64) -> (r: Option<String>)
    ensures
        r is Some <==> n > 0,
        r matches Some(t) ==> t@ == iso_date_text(date@) + " has "@ + decimal(n as nat) + " time entr"@ + (
        if n == 1 {
            "y"@
        } else {
            "ies"@
        }) + "; remove them before changing the day type"@,
{
    if n == 0 {
        return None;
    }
    let mut s = date.to_text();
    push_str(&mut s, " has ");
    push_decimal(&mut s, n);
    push_str(&mut s, " time entr");
    if n == 1 {
        push_str(&mut s, "y");
    } else {
        push_str(&mut s, "ies");
    }
    push_str(&mut s, "; remove them before changing the day type");
    Some(s)
}

/// Why marking `from..=to` is refused: no weekday in it, or a weekday `d`
/// that has entries.
pub fn range_refusal_text(why: Option<Date>, from: Date, to: Date) -> (r: String)
    ensures
        r@ == match why {
            None => "No weekdays between "@ + iso_date_text(from@) + " and "@ + iso_date_text(to@),
            Some(d) => iso_date_text(d@) + " has entries; delete them first"@,
        },
{
    match why {
        None => {
            let mut s = String::from_str("No weekdays between ");
            push_str(&mut s, from.to_text().as_str());
            push_str(&mut s, " and ");
            push_str(&mut s, to.to_text().as_str());
            s
        },
        Some(d) => {
            let mut s = d.to_text();
            push_str(&mut s, " has entries; delete them first");
            s
        },
    }
}

/// What a booking answers, `day` being the entries of the day entry `e`
/// landed in: the entry, how many projects its session spans, what that
/// session loses to the break, and `message`.
pub fn booked_reply(day: &[Entry], e: &Entry, message: String, tiers: &[BreakTier]) -> (r: StoreReply)
    ensures
        ({
            let g = session_of(sessions_of(entry_intervals(day@)), day@, e.id);
            r matches StoreReply::Booked { entry_id, date, session_projects, deduction, message: m } && entry_id
                == e.id && date == e.date && session_projects == distinct_names(names_at(day@, g))
                && deduction.0 == tier_deduction(tiers@, max_end(day@, g) - min_start(day@, g)) && m
                == message
        }),
{
    let (n, ded) = session_summary(day, e.id, tiers);
    StoreReply::Booked { entry_id: e.id, date: e.date, session_projects: n, deduction: ded, message }
}

/// Project `a` is listed before `b`: active before archived, then by name
/// without regard to case.
pub open spec fn listed_before(a: Project, b: Project) -> bool {
    (!a.archived && b.archived) || (a.archived == b.archived && name_lt(
        lowercase_text(a.name@),
        lowercase_text(b.name@),
    ))
}

pub open spec fn listed(s: Seq<Project>) -> bool {
    forall|i: int, j: int| 0 <= i < j < s.len() ==> !listed_before(#[trigger] s[j], #[trigger] s[i])
}

proof fn lemma_listed_asym(a: Project, b: Project)
    requires
        listed_before(a, b),
    ensures
        !listed_before(b, a),
{
    if a.archived == b.archived {
        crate::tally::lemma_name_lt_asym(lowercase_text(a.name@), lowercase_text(b.name@));
    }
}

/// What comes before `c` comes before `b`, or `b` comes before `c`.
proof fn lemma_listed_split(a: Project, b: Project, c: Project)
    requires
        listed_before(a, c),
    ensures
        listed_before(a, b) || listed_before(b, c),
{
    let (la, lb, lc) = (lowercase_text(a.name@), lowercase_text(b.name@), lowercase_text(c.name@));
    if a.archived == c.archived && b.archived == a.archived {
        if lb != la && lb != lc {
            crate::tally::lemma_name_lt_total(la, lb);
            crate::tally::lemma_name_lt_total(lb, lc);
            if name_lt(lb, la) && name_lt(lc, lb) {
                crate::tally::lemma_name_lt_trans(lc, lb, la);
                crate::tally::lemma_name_lt_asym(la, lc);
            }
        }
    }
}

/// Inserting `p` after all that come before it and before the first that
/// does not keeps a listed sequence listed.
proof fn lemma_listed_pair(o: Seq<Project>, k: int, p: Project, i: int, j: int)
    requires
        listed(o),
        0 <= k <= o.len(),
        forall|x: int| 0 <= x < k ==> listed_before(#[trigger] o[x], p),
        k < o.len() ==> !listed_before(o[k], p),
        0 <= i < j < o.len() + 1,
    ensures
        !listed_before(o.insert(k, p)[j], o.insert(k, p)[i]),
{
    let n = o.insert(k, p);
    if j == k {
        lemma_listed_asym(o[i], p);
    } else if i == k {
        if listed_before(o[j - 1], p) {
            lemma_listed_split(o[j - 1], o[k], p);
        }
    } else {
        let oi = if i < k {
            i
        } else {
            i - 1
        };
        let oj = if j < k {
            j
        } else {
            j - 1
        };
        assert(n[i] == o[oi]);
        assert(n[j] == o[oj]);
    }
}

fn before(a: &Project, b: &Project) -> (r: bool)
    ensures
        r == listed_before(*a, *b),
{
    if a.archived != b.archived {
        !a.archived
    } else {
        let la = lowercase(a.name.as_str());
        let lb = lowercase(b.name.as_str());
        name_less(la.as_str(), lb.as_str())
    }
}

/// The projects as the projects screen lists them: active ones first, then
/// by name without regard to case.
pub fn list_projects(ps: Vec<Project>) -> (r: Vec<Project>)
    ensures
        r@.to_multiset() == ps@.to_multiset(),
        listed(r@),
{
    let mut rest = ps;
    let mut out: Vec<Project> = Vec::new();
    let ghost all = rest@;
    proof {
        assert(out@ =~= Seq::<Project>::empty());
        out@.to_multiset_ensures();
        vstd::multiset::lemma_multiset_empty_len(out@.to_multiset());
        assert(out@.to_multiset() =~= Multiset::<Project>::empty());
        assert(out@.to_multiset().add(rest@.to_multiset()) =~= all.to_multiset());
    }
    while rest.len() > 0
        invariant
            out@.to_multiset().add(rest@.to_multiset()) == all.to_multiset(),
            listed(out@),
        decreases rest.len(),
    {
        let ghost r0 = rest@;
        let p = rest.pop().unwrap();
        proof {
            assert(r0 =~= rest@.push(p));
            to_multiset_build(rest@, p);
        }
        let mut k: usize = 0;
        while k < out.len() && before(&out[k], &p)
            invariant
                k <= out@.len(),
                forall|j: int| 0 <= j < k ==> listed_before(#[trigger] out@[j], p),
            decreases out.len() - k,
        {
            k += 1;
        }
        let ghost o0 = out@;
        out.insert(k, p);
        proof {
            to_multiset_insert(o0, k as int, p);
            assert(out@ == o0.insert(k as int, p));
            assert forall|i: int, j: int| 0 <= i < j < out@.len() implies !listed_before(
                #[trigger] out@[j],
                #[trigger] out@[i],
            ) by {
                lemma_listed_pair(o0, k as int, p, i, j);
            }
        }
    }
    proof {
        assert(rest@ =~= Seq::<Project>::empty());
        assert(rest@.to_multiset() =~= Multiset::<Project>::empty());
        assert(out@.to_multiset().add(rest@.to_multiset()) =~= out@.to_multiset());
    }
    out
}

/// The net minutes per project of a projects reply, as names and numbers.
pub open spec fn nets_view(v: Seq<(String, Minutes)>) -> Seq<(Seq<char>, int)> {
    Seq::new(v.len(), |i: int| (v[i].0@, v[i].1.0 as int))
}

/// What the projects screen is sent: every project, listed, and the net
/// minutes worked on each over `days`, one pair per project name that has
/// entries.
pub fn projects_reply(projects: Vec<Project>, days: &[Day], tiers: &[BreakTier]) -> (r: ProjectsData)
    requires
        crate::tally::magnitude(amounts(worked(days@, tiers@))) <= i32::MAX,
    ensures
        r.projects@.to_multiset() == projects@.to_multiset(),
        listed(r.projects@),
        tallies(nets_view(r.net_by_project@), worked(days@, tiers@)),
{
    let listed = list_projects(projects);
    let (acc, _) = tally_days(days, tiers);
    let mut nets: Vec<(String, Minutes)> = Vec::new();
    let mut i: usize = 0;
    while i < acc.len()
        invariant
            i <= acc@.len(),
            nets_view(nets@) == tally_view(acc@).take(i as int),
        decreases acc.len() - i,
    {
        let ghost nv = nets@;
        let name = acc[i].0.clone();
        nets.push((name, Minutes(acc[i].1)));
        proof {
            assert(nets_view(nets@) =~= nets_view(nv).push(tally_view(acc@)[i as int]));
            assert(tally_view(acc@).take(i + 1) =~= tally_view(acc@).take(i as int).push(tally_view(acc@)[i as int]));
        }
        i += 1;
    }
    proof {
        assert(tally_view(acc@).take(acc@.len() as int) =~= tally_view(acc@));
    }
    ProjectsData { projects: listed, net_by_project: nets }
}

} // verus!
