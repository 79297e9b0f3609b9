//! What the command line writes: the net of a booked entry, the exports in
//! CSV and JSON, the settings table, the status line and the import summary.
use crate::breaks::{BreakTier, entry_nets, minutes_seq, nets_of};
use crate::config::Config;
use crate::date::{Date, Time, iso_date_text};
use crate::import::{csv_field, csv_quote, json_escaped, json_quote};
use crate::minutes::{HoursFormat, Minutes, abs, hhmm_text, signed_text, unsigned_text};
use crate::text::{decimal, pad2, push_char, push_decimal, push_pad2, push_str};
use crate::types::Entry;
use vstd::prelude::*;

verus! {

/// `HH:MM` of a clock time.
pub open spec fn clock_text(t: Time) -> Seq<char> {
    pad2(t@.0 as nat) + ":"@ + pad2(t@.1 as nat)
}

/// A clock time as `HH:MM`.
pub fn clock_string(t: Time) -> (r: String)
    ensures
        r@ == clock_text(t),
{
    t.valid();
    let mut s = String::new();
    push_pad2(&mut s, t.hour() as u64);
    push_char(&mut s, ':');
    push_pad2(&mut s, t.minute() as u64);
    proof {
        reveal_strlit(":");
        assert(s@ =~= clock_text(t));
    }
    s
}

fn push_clock(s: &mut String, t: Time)
    ensures
        final(s)@ == old(s)@ + clock_text(t),
{
    let c = clock_string(t);
    push_str(s, c.as_str());
}

/// An integer as Rust writes it: a minus sign for a negative one.
pub open spec fn int_decimal(v: int) -> Seq<char> {
    if v < 0 {
        seq!['-'] + decimal((-v) as nat)
    } else {
        decimal(v as nat)
    }
}

pub(crate) fn push_i32(s: &mut String, v: i32)
    ensures
        final(s)@ == old(s)@ + int_decimal(v as int),
{
    if v < 0 {
        push_char(s, '-');
        push_decimal(s, (0 - v as i64) as u64);
        proof {
            assert(final(s)@ =~= old(s)@ + int_decimal(v as int));
        }
    } else {
        push_decimal(s, v as u64);
    }
}

/// The entries of `e` on day `d`, in order.
pub open spec fn same_day(e: Seq<Entry>, d: Date) -> Seq<Entry>
    decreases e.len(),
{
    if e.len() == 0 {
        Seq::empty()
    } else if e.last().date == d {
        same_day(e.drop_last(), d).push(e.last())
    } else {
        same_day(e.drop_last(), d)
    }
}

/// Where entry `i` stands among the entries of its day.
pub open spec fn day_rank(e: Seq<Entry>, i: int) -> int {
    same_day(e.take(i), e[i].date).len() as int
}

/// The net of every entry of a run spanning several days: sessions live
/// inside one day, so each entry's share of its session's break is worked
/// out among the entries of its own day.
pub open spec fn nets_across(e: Seq<Entry>, t: Seq<BreakTier>) -> Seq<int> {
    Seq::new(e.len(), |i: int| nets_of(same_day(e, e[i].date), t)[day_rank(e, i)])
}

proof fn lemma_same_day_len(e: Seq<Entry>, d: Date)
    ensures
        same_day(e, d).len() <= e.len(),
    decreases e.len(),
{
    if e.len() > 0 {
        lemma_same_day_len(e.drop_last(), d);
    }
}

proof fn lemma_same_day_none(e: Seq<Entry>, d: Date)
    requires
        forall|j: int| 0 <= j < e.len() ==> (#[trigger] e[j]).date != d,
    ensures
        same_day(e, d) == Seq::<Entry>::empty(),
    decreases e.len(),
{
    if e.len() > 0 {
        lemma_same_day_none(e.drop_last(), d);
    }
}

/// The net of each entry, aligned with `entries`, the entries grouped by
/// day before their shares of the break are worked out.
pub fn nets_by_day(entries: &[Entry], tiers: &[BreakTier]) -> (r: Vec<Minutes>)
    ensures
        minutes_seq(r@) == nets_across(entries@, tiers@),
{
    let n = entries.len();
    let ghost e = entries@;
    let mut out: Vec<Minutes> = Vec::new();
    let mut z: usize = 0;
    while z < n
        invariant
            z <= n,
            out@.len() == z,
        decreases n - z,
    {
        out.push(Minutes(0));
        z += 1;
    }
    let mut i: usize = 0;
    while i < n
        invariant
            i <= n,
            n == e.len(),
            e == entries@,
            out@.len() == n,
            forall|p: int|
                0 <= p < n && (exists|j: int| 0 <= j < i && (#[trigger] e[j]).date == e[p].date) ==> (
                #[trigger] out@[p]).0 == nets_across(e, tiers@)[p],
        decreases n - i,
    {
        let d = entries[i].date;
        let mut seen = false;
        let mut j: usize = 0;
        while j < i
            invariant
                j <= i < n,
                n == e.len(),
                e == entries@,
                d == e[i as int].date,
                seen == exists|m: int| 0 <= m < j && (#[trigger] e[m]).date == d,
            decreases i - j,
        {
            if entries[j].date.same(&d) {
                seen = true;
            }
            j += 1;
        }
        if !seen {
            let mut group: Vec<Entry> = Vec::new();
            let mut idx: Vec<usize> = Vec::new();
            let mut k: usize = i;
            proof {
                lemma_same_day_none(e.take(i as int), d);
            }
            while k < n
                invariant
                    i <= k <= n,
                    n == e.len(),
                    e == entries@,
                    d == e[i as int].date,
                    forall|m: int| 0 <= m < i ==> (#[trigger] e[m]).date != d,
                    group@ == same_day(e.take(k as int), d),
                    idx@.len() == group@.len(),
                    forall|q: int|
                        0 <= q < idx@.len() ==> i <= #[trigger] idx@[q] < k && e[idx@[q] as int].date == d
                            && day_rank(e, idx@[q] as int) == q,
                    forall|m1: int, m2: int| 0 <= m1 < m2 < idx@.len() ==> #[trigger] idx@[m1] < #[trigger] idx@[m2],
                    forall|p: int| i <= p < k && (#[trigger] e[p]).date == d ==> exists|m: int| 0 <= m < idx@.len() && idx@[m] == p,
                decreases n - k,
            {
                proof {
                    assert(e.take(k + 1).drop_last() =~= e.take(k as int));
                    assert(e.take(k + 1).last() == e[k as int]);
                }
                let ghost idx0 = idx@;
                if entries[k].date.same(&d) {
                    proof {
                        assert(day_rank(e, k as int) == group@.len());
                    }
                    group.push(entries[k].clone());
                    idx.push(k);
                }
                proof {
                    assert forall|p: int| i <= p < k + 1 && (#[trigger] e[p]).date == d implies exists|m: int|
                        0 <= m < idx@.len() && idx@[m] == p by {
                        if p == k {
                            assert(idx@[idx@.len() - 1] == p);
                        } else {
                            let m = choose|m: int| 0 <= m < idx0.len() && idx0[m] == p;
                            assert(idx@[m] == idx0[m]);
                        }
                    }
                }
                k += 1;
            }
            proof {
                assert(e.take(n as int) =~= e);
            }
            let nets = entry_nets(group.as_slice(), tiers);
            let group_len = group.len();
            proof {
                assert(group@.len() == group_len);
                crate::sharing::lemma_nets_bounds(group@, tiers@);
            }
            let mut q: usize = 0;
            while q < idx.len()
                invariant
                    q <= idx@.len(),
                    idx@.len() == group@.len(),
                    nets@.len() == group@.len(),
                    n == e.len(),
                    e == entries@,
                    out@.len() == n,
                    d == e[i as int].date,
                    group@ == same_day(e, d),
                    minutes_seq(nets@) == nets_of(group@, tiers@),
                    forall|m: int|
                        0 <= m < idx@.len() ==> i <= #[trigger] idx@[m] < n && e[idx@[m] as int].date == d
                            && day_rank(e, idx@[m] as int) == m,
                    forall|m: int| 0 <= m < q ==> (#[trigger] out@[idx@[m] as int]).0 == nets_across(e, tiers@)[idx@[m] as int],
                    forall|p: int|
                        0 <= p < n && (exists|j: int| 0 <= j < i && (#[trigger] e[j]).date == e[p].date) ==> (
                        #[trigger] out@[p]).0 == nets_across(e, tiers@)[p],
                    forall|m1: int, m2: int| 0 <= m1 < m2 < idx@.len() ==> #[trigger] idx@[m1] < #[trigger] idx@[m2],
                    forall|p: int| i <= p < n && (#[trigger] e[p]).date == d ==> exists|m: int| 0 <= m < idx@.len() && idx@[m] == p,
                    forall|m: int| 0 <= m < i ==> (#[trigger] e[m]).date != d,
                decreases idx.len() - q,
            {
                let p = idx[q];
                proof {
                    assert(minutes_seq(nets@)[q as int] == nets@[q as int].0);
                    assert(nets_across(e, tiers@)[p as int] == nets_of(same_day(e, d), tiers@)[q as int]);
                }
                let ghost before = out@;
                out.set(p, nets[q]);
                proof {
                    assert forall|p2: int|
                        0 <= p2 < n && (exists|j: int| 0 <= j < i && (#[trigger] e[j]).date == e[p2].date) implies (
                        #[trigger] out@[p2]).0 == nets_across(e, tiers@)[p2] by {
                        if p2 == p {
                            let j = choose|j: int| 0 <= j < i && (#[trigger] e[j]).date == e[p2].date;
                            assert(e[j].date != d);
                        } else {
                            assert(out@[p2] == before[p2]);
                        }
                    }
                    assert forall|m: int| 0 <= m < q + 1 implies (#[trigger] out@[idx@[m] as int]).0 == nets_across(e, tiers@)[idx@[m] as int] by {
                        if m < q {
                            assert(idx@[m] < idx@[q as int]);
                        }
                    }
                }
                q += 1;
            }
            proof {
                assert forall|p: int|
                    0 <= p < n && (exists|j: int| 0 <= j < i + 1 && (#[trigger] e[j]).date == e[p].date) implies (
                    #[trigger] out@[p]).0 == nets_across(e, tiers@)[p] by {
                    if !(exists|j: int| 0 <= j < i && (#[trigger] e[j]).date == e[p].date) {
                        let j = choose|j: int| 0 <= j < i + 1 && (#[trigger] e[j]).date == e[p].date;
                        assert(j == i);
                        assert(e[p].date == d);
                        if p < i {
                            assert(e[p].date != d);
                        }
                        let m = choose|m: int| 0 <= m < idx@.len() && idx@[m] == p;
                        assert(out@[idx@[m] as int].0 == nets_across(e, tiers@)[idx@[m] as int]);
                    }
                }
            }
        } else {
            proof {
                assert forall|p: int|
                    0 <= p < n && (exists|j: int| 0 <= j < i + 1 && (#[trigger] e[j]).date == e[p].date) implies (
                    #[trigger] out@[p]).0 == nets_across(e, tiers@)[p] by {
                    let j = choose|j: int| 0 <= j < i + 1 && (#[trigger] e[j]).date == e[p].date;
                    if j == i {
                        let m = choose|m: int| 0 <= m < i && (#[trigger] e[m]).date == d;
                        assert(e[m].date == e[p].date);
                    }
                }
            }
        }
        i += 1;
    }
    proof {
        assert forall|p: int| 0 <= p < n implies (#[trigger] out@[p]).0 == nets_across(e, tiers@)[p] by {
            assert(e[p].date == e[p].date);
        }
        assert(minutes_seq(out@) =~= nets_across(e, tiers@));
    }
    out
}

/// Where the entry with id `id` first stands in `e`.
pub open spec fn id_pos(e: Seq<Entry>, id: i64) -> Option<int>
    decreases e.len(),
{
    if e.len() == 0 {
        None
    } else {
        match id_pos(e.drop_last(), id) {
            Some(i) => Some(i),
            None => if e.last().id == id {
                Some(e.len() - 1)
            } else {
                None
            },
        }
    }
}

/// The net of `entry` within its day `entries`: its gross minus its share
/// of its session's break. An entry that is not in the day keeps its gross.
pub fn net_of(entries: &[Entry], entry: &Entry, tiers: &[BreakTier]) -> (r: Minutes)
    ensures
        r.0 == match id_pos(entries@, entry.id) {
            Some(i) => nets_of(entries@, tiers@)[i],
            None => entry.len(),
        },
{
    let mut i: usize = 0;
    proof {
        assert(entries@.take(0) =~= Seq::<Entry>::empty());
    }
    while i < entries.len()
        invariant
            i <= entries@.len(),
            id_pos(entries@.take(i as int), entry.id) is None,
        decreases entries.len() - i,
    {
        proof {
            assert(entries@.take(i + 1).drop_last() =~= entries@.take(i as int));
        }
        if entries[i].id == entry.id {
            proof {
                lemma_id_pos_prefix(entries@, entry.id, i + 1);
            }
            let nets = entry_nets(entries, tiers);
            proof {
                crate::sharing::lemma_nets_bounds(entries@, tiers@);
                assert(minutes_seq(nets@)[i as int] == nets@[i as int].0);
            }
            return nets[i];
        }
        i += 1;
    }
    proof {
        assert(entries@.take(entries@.len() as int) =~= entries@);
    }
    entry.duration()
}

proof fn lemma_id_pos_prefix(e: Seq<Entry>, id: i64, k: int)
    requires
        0 <= k <= e.len(),
        id_pos(e.take(k), id) is Some,
    ensures
        id_pos(e, id) == id_pos(e.take(k), id),
    decreases e.len() - k,
{
    if k < e.len() {
        assert(e.drop_last().take(k) =~= e.take(k));
        lemma_id_pos_prefix(e.drop_last(), id, k);
    } else {
        assert(e.take(k) =~= e);
    }
}

/// One line of the CSV export: date, start, end, project, comment, the
/// gross and the net as `±HH:MM`, and what the entry paid towards its
/// session's break as `HH:MM`.
pub open spec fn csv_line(e: Entry, net: int) -> Seq<char> {
    iso_date_text(e.date@) + ","@ + clock_text(e.start) + ","@ + clock_text(e.end) + ","@ + csv_field(
        e.project@,
    ) + ","@ + csv_field(e.comment@) + ","@ + signed_text(e.len(), HoursFormat::Hm) + ","@
        + signed_text(net, HoursFormat::Hm) + ","@ + hhmm_text(abs(e.len() - net) as nat) + "\n"@
}

pub open spec fn csv_lines(e: Seq<Entry>, nets: Seq<int>) -> Seq<char>
    decreases e.len(),
{
    if e.len() == 0 {
        Seq::empty()
    } else {
        csv_lines(e.drop_last(), nets) + csv_line(e.last(), nets[e.len() - 1])
    }
}

/// The header of the CSV export.
pub open spec fn csv_header() -> Seq<char> {
    "date,start,end,project,comment,gross,net,break\n"@
}

/// Whether gross less net fits for every entry.
pub open spec fn nets_fit(e: Seq<Entry>, nets: Seq<Minutes>) -> bool {
    &&& e.len() == nets.len()
    &&& forall|i: int| 0 <= i < e.len() ==> i32::MIN <= (#[trigger] e[i]).len() - nets[i].0 <= i32::MAX
}

/// The CSV line of one entry with its net.
pub fn csv_entry_line(e: &Entry, net: Minutes) -> (r: String)
    requires
        i32::MIN <= e.len() - net.0 <= i32::MAX,
    ensures
        r@ == csv_line(*e, net.0 as int),
{
    let dur = e.duration();
    let mut s = String::new();
    push_str(&mut s, e.date.to_text().as_str());
    push_char(&mut s, ',');
    push_clock(&mut s, e.start);
    push_char(&mut s, ',');
    push_clock(&mut s, e.end);
    push_char(&mut s, ',');
    push_str(&mut s, csv_quote(e.project.as_str()).as_str());
    push_char(&mut s, ',');
    push_str(&mut s, csv_quote(e.comment.as_str()).as_str());
    push_char(&mut s, ',');
    push_str(&mut s, dur.to_string().as_str());
    push_char(&mut s, ',');
    push_str(&mut s, net.to_string().as_str());
    push_char(&mut s, ',');
    push_str(&mut s, Minutes(dur.0 - net.0).hhmm().as_str());
    push_char(&mut s, '\n');
    proof {
        reveal_strlit(",");
        reveal_strlit("\n");
        assert(s@ =~= csv_line(*e, net.0 as int));
    }
    s
}

/// The entries as CSV, a line each after the header.
pub fn export_csv(entries: &[Entry], nets: &[Minutes]) -> (r: String)
    requires
        nets_fit(entries@, nets@),
    ensures
        r@ == csv_header() + csv_lines(entries@, minutes_seq(nets@)),
{
    let mut s = String::new();
    push_str(&mut s, "date,start,end,project,comment,gross,net,break\n");
    let mut i: usize = 0;
    proof {
        assert(entries@.take(0) =~= Seq::<Entry>::empty());
        assert(s@ =~= csv_header() + csv_lines(entries@.take(0), minutes_seq(nets@)));
    }
    while i < entries.len()
        invariant
            i <= entries@.len(),
            nets_fit(entries@, nets@),
            s@ == csv_header() + csv_lines(entries@.take(i as int), minutes_seq(nets@)),
        decreases entries.len() - i,
    {
        proof {
            assert(entries@.take(i + 1).drop_last() =~= entries@.take(i as int));
            assert(entries@.take(i + 1).last() == entries@[i as int]);
            assert(minutes_seq(nets@)[i as int] == nets@[i as int].0);
            assert(i32::MIN <= entries@[i as int].len() - nets@[i as int].0 <= i32::MAX);
        }
        let line = csv_entry_line(&entries[i], nets[i]);
        push_str(&mut s, line.as_str());
        i += 1;
    }
    proof {
        assert(entries@.take(entries@.len() as int) =~= entries@);
    }
    s
}

/// `s` as a JSON string, in quotes.
pub open spec fn json_string(s: Seq<char>) -> Seq<char> {
    seq!['"'] + json_escaped(s) + seq!['"']
}

/// One object of the JSON export.
pub open spec fn json_object(e: Entry, net: int) -> Seq<char> {
    "{\"date\":\""@ + iso_date_text(e.date@) + "\",\"start\":\""@ + clock_text(e.start)
        + "\",\"end\":\""@ + clock_text(e.end) + "\",\"project\":"@ + json_string(e.project@)
        + ",\"comment\":"@ + json_string(e.comment@) + ",\"gross_minutes\":"@ + int_decimal(e.len())
        + ",\"net_minutes\":"@ + int_decimal(net) + ",\"break_minutes\":"@ + int_decimal(e.len() - net)
        + "}"@
}

pub open spec fn json_objects_text(e: Seq<Entry>, nets: Seq<int>) -> Seq<char>
    decreases e.len(),
{
    if e.len() == 0 {
        Seq::empty()
    } else if e.len() == 1 {
        json_object(e[0], nets[0])
    } else {
        json_objects_text(e.drop_last(), nets) + ","@ + json_object(e.last(), nets[e.len() - 1])
    }
}

/// The JSON object of one entry with its net.
pub fn json_entry_object(e: &Entry, net: Minutes) -> (r: String)
    requires
        i32::MIN <= e.len() - net.0 <= i32::MAX,
    ensures
        r@ == json_object(*e, net.0 as int),
{
    let dur = e.duration();
    let mut s = String::new();
    push_str(&mut s, "{\"date\":\"");
    push_str(&mut s, e.date.to_text().as_str());
    push_str(&mut s, "\",\"start\":\"");
    push_clock(&mut s, e.start);
    push_str(&mut s, "\",\"end\":\"");
    push_clock(&mut s, e.end);
    push_str(&mut s, "\",\"project\":");
    push_str(&mut s, json_quote(e.project.as_str()).as_str());
    push_str(&mut s, ",\"comment\":");
    push_str(&mut s, json_quote(e.comment.as_str()).as_str());
    push_str(&mut s, ",\"gross_minutes\":");
    push_i32(&mut s, dur.0);
    push_str(&mut s, ",\"net_minutes\":");
    push_i32(&mut s, net.0);
    push_str(&mut s, ",\"break_minutes\":");
    push_i32(&mut s, dur.0 - net.0);
    push_char(&mut s, '}');
    proof {
        reveal_strlit("}");
        assert(s@ =~= json_object(*e, net.0 as int));
    }
    s
}

/// The entries as a JSON array of objects, on one line.
pub fn export_json(entries: &[Entry], nets: &[Minutes]) -> (r: String)
    requires
        nets_fit(entries@, nets@),
    ensures
        r@ == "["@ + json_objects_text(entries@, minutes_seq(nets@)) + "]\n"@,
{
    let mut s = String::new();
    push_char(&mut s, '[');
    let mut i: usize = 0;
    proof {
        reveal_strlit("[");
        assert(entries@.take(0) =~= Seq::<Entry>::empty());
        assert(s@ =~= "["@ + json_objects_text(entries@.take(0), minutes_seq(nets@)));
    }
    while i < entries.len()
        invariant
            i <= entries@.len(),
            nets_fit(entries@, nets@),
            s@ == "["@ + json_objects_text(entries@.take(i as int), minutes_seq(nets@)),
        decreases entries.len() - i,
    {
        proof {
            assert(entries@.take(i + 1).drop_last() =~= entries@.take(i as int));
            assert(entries@.take(i + 1).last() == entries@[i as int]);
            assert(minutes_seq(nets@)[i as int] == nets@[i as int].0);
            assert(i32::MIN <= entries@[i as int].len() - nets@[i as int].0 <= i32::MAX);
            reveal_strlit(",");
            if i == 0 {
                assert(entries@.take(1)[0] == entries@[0]);
            }
        }
        if i > 0 {
            push_char(&mut s, ',');
        }
        let obj = json_entry_object(&entries[i], nets[i]);
        push_str(&mut s, obj.as_str());
        proof {
            let t = entries@.take(i + 1);
            if i == 0 {
                assert(entries@.take(0) =~= Seq::<Entry>::empty());
            }
        }
        i += 1;
    }
    push_char(&mut s, ']');
    push_char(&mut s, '\n');
    proof {
        reveal_strlit("]\n");
        assert(entries@.take(entries@.len() as int) =~= entries@);
    }
    s
}

/// `k` padded with spaces to sixteen characters.
pub open spec fn padded16(k: Seq<char>) -> Seq<char> {
    k + Seq::new(if k.len() < 16 {
        (16 - k.len()) as nat
    } else {
        0
    }, |i: int| ' ')
}

/// A line of the settings table: the name padded to sixteen, a space, the
/// value.
pub open spec fn table_line(k: Seq<char>, v: Seq<char>) -> Seq<char> {
    padded16(k) + " "@ + v + "\n"@
}

fn push_line(s: &mut String, k: &str, v: &str)
    ensures
        final(s)@ == old(s)@ + table_line(k@, v@),
{
    let kc = crate::text::chars_of(k);
    push_str(s, k);
    let mut n: usize = kc.len();
    let ghost base = old(s)@ + k@;
    while n < 16
        invariant
            kc@ == k@,
            kc@.len() <= n <= 16 || (n == kc@.len() && n >= 16),
            s@ == base + Seq::new((n - kc@.len()) as nat, |i: int| ' '),
        decreases 16 - n,
    {
        let ghost before = s@;
        push_char(s, ' ');
        n += 1;
        proof {
            assert(s@ =~= base + Seq::new((n - kc@.len()) as nat, |i: int| ' '));
        }
    }
    push_char(s, ' ');
    push_str(s, v);
    push_char(s, '\n');
    proof {
        reveal_strlit(" ");
        reveal_strlit("\n");
        assert(final(s)@ =~= old(s)@ + table_line(k@, v@));
    }
}

/// The five settings `tk config` shows: start date, initial balance, daily
/// target, vacation days and hours format, a line each.
pub open spec fn settings_table(c: &Config) -> Seq<char> {
    let f = match crate::minutes::hours_format_text(c.hours_format@) {
        Some(f) => f,
        None => HoursFormat::Hm,
    };
    table_line("start_date"@, iso_date_text(c.start_date@)) + table_line(
        "initial_balance"@,
        signed_text(c.initial_balance_minutes as int, f),
    ) + table_line("daily_target"@, unsigned_text(abs(c.daily_target_minutes as int) as nat, f))
        + table_line("vacation_days"@, decimal(c.vacation_days_per_year as nat)) + table_line(
        "hours_format"@,
        c.hours_format@,
    )
}

/// The settings table of `c`.
pub fn config_table(c: &Config) -> (r: String)
    ensures
        r@ == settings_table(c),
{
    let f = c.hours_format();
    let mut s = String::new();
    push_line(&mut s, "start_date", c.start_date.to_text().as_str());
    push_line(&mut s, "initial_balance", Minutes(c.initial_balance_minutes).fmt_signed(f).as_str());
    push_line(&mut s, "daily_target", Minutes(c.daily_target_minutes).fmt_unsigned(f).as_str());
    let vac = crate::text::decimal_string(c.vacation_days_per_year as u64);
    push_line(&mut s, "vacation_days", vac.as_str());
    push_line(&mut s, "hours_format", c.hours_format.as_str());
    proof {
        assert(s@ =~= settings_table(c));
    }
    s
}

/// The summary of an import: how many entries were imported, and, where
/// there were any, how many rows were skipped and how many projects are
/// new; a dry run says that nothing was written.
pub open spec fn import_summary_text(imported: nat, skipped: nat, new_projects: nat, dry_run: bool) -> Seq<
    char,
> {
    "imported "@ + decimal(imported) + (if skipped > 0 {
        ", skipped "@ + decimal(skipped)
    } else {
        Seq::empty()
    }) + (if new_projects > 0 {
        ", "@ + decimal(new_projects) + " new projects"@
    } else {
        Seq::empty()
    }) + (if dry_run {
        " (dry run, nothing written)"@
    } else {
        Seq::empty()
    })
}

/// The one-line summary of an import.
pub fn import_summary(imported: usize, skipped: usize, new_projects: usize, dry_run: bool) -> (r:
    String)
    ensures
        r@ == import_summary_text(imported as nat, skipped as nat, new_projects as nat, dry_run),
{
    let mut s = String::new();
    push_str(&mut s, "imported ");
    push_decimal(&mut s, imported as u64);
    if skipped > 0 {
        push_str(&mut s, ", skipped ");
        push_decimal(&mut s, skipped as u64);
    }
    if new_projects > 0 {
        push_str(&mut s, ", ");
        push_decimal(&mut s, new_projects as u64);
        push_str(&mut s, " new projects");
    }
    if dry_run {
        push_str(&mut s, " (dry run, nothing written)");
    }
    proof {
        assert(s@ =~= import_summary_text(imported as nat, skipped as nat, new_projects as nat, dry_run));
    }
    s
}

/// The status line: on a break, how long it has run since when, on which
/// project; while working, the project, how long the clock has run and since
/// when; else that the clock is not running. Each ends with today's net and
/// the balance.
pub open spec fn status_text(
    session: Option<crate::clock::Session>,
    elapsed: int,
    net: int,
    balance: int,
    f: HoursFormat,
) -> Seq<char> {
    let tail = " · today "@ + signed_text(net, f) + " · balance "@ + signed_text(balance, f);
    match session {
        Some(s) => if s.state == crate::clock::SessionState::Break {
            "☕ on break "@ + unsigned_text(abs(elapsed) as nat, f) + " (since "@ + clock_text(s.start)
                + ")"@ + (match s.project {
                Some(p) => " · "@ + p@,
                None => Seq::empty(),
            }) + tail
        } else {
            "⏱ "@ + (match s.project {
                Some(p) => p@ + " "@,
                None => Seq::empty(),
            }) + unsigned_text(abs(elapsed) as nat, f) + " (in "@ + clock_text(s.start) + ")"@ + tail
        },
        None => "not clocked in"@ + tail,
    }
}

/// The status line for the open session (if any), the time it has run or
/// been paused, today's net and the balance.
pub fn status_line_text(
    session: &Option<crate::clock::Session>,
    elapsed: Minutes,
    net: Minutes,
    balance: Minutes,
    f: HoursFormat,
) -> (r: String)
    ensures
        r@ == status_text(*session, elapsed.0 as int, net.0 as int, balance.0 as int, f),
{
    let mut tail = String::new();
    push_str(&mut tail, " · today ");
    push_str(&mut tail, net.fmt_signed(f).as_str());
    push_str(&mut tail, " · balance ");
    push_str(&mut tail, balance.fmt_signed(f).as_str());
    let mut s = String::new();
    match session {
        Some(ss) => {
            if ss.state.is_break() {
                push_str(&mut s, "☕ on break ");
                push_str(&mut s, elapsed.fmt_unsigned(f).as_str());
                push_str(&mut s, " (since ");
                push_clock(&mut s, ss.start);
                push_str(&mut s, ")");
                match &ss.project {
                    Some(p) => {
                        push_str(&mut s, " · ");
                        push_str(&mut s, p.as_str());
                    },
                    None => {},
                }
            } else {
                push_str(&mut s, "⏱ ");
                match &ss.project {
                    Some(p) => {
                        push_str(&mut s, p.as_str());
                        push_str(&mut s, " ");
                    },
                    None => {},
                }
                push_str(&mut s, elapsed.fmt_unsigned(f).as_str());
                push_str(&mut s, " (in ");
                push_clock(&mut s, ss.start);
                push_str(&mut s, ")");
            }
        },
        None => {
            push_str(&mut s, "not clocked in");
        },
    }
    push_str(&mut s, tail.as_str());
    proof {
        assert(s@ =~= status_text(*session, elapsed.0 as int, net.0 as int, balance.0 as int, f));
    }
    s
}

/// What `tk day` reports: how many days were set, and to which kind, in
/// lower case.
pub open spec fn days_set_text(n: nat, kind_lower: Seq<char>) -> Seq<char> {
    "Set "@ + decimal(n) + " day"@ + (if n == 1 {
        Seq::empty()
    } else {
        "s"@
    }) + " to "@ + kind_lower
}

/// The report of `tk day` after setting `n` days to `kind`.
pub fn days_set_message(n: u64, kind: &crate::types::DayKind) -> (r: String)
    ensures
        r@ == days_set_text(n as nat, crate::ui::lowercase_text(crate::types::kind_display(kind@))),
{
    let mut s = String::new();
    push_str(&mut s, "Set ");
    push_decimal(&mut s, n);
    push_str(&mut s, " day");
    if n != 1 {
        push_str(&mut s, "s");
    }
    push_str(&mut s, " to ");
    let name = kind.display_name();
    let lower = crate::ui::lowercase(name.as_str());
    push_str(&mut s, lower.as_str());
    proof {
        assert(s@ =~= days_set_text(n as nat, crate::ui::lowercase_text(crate::types::kind_display(kind@))));
    }
    s
}

} // verus!
