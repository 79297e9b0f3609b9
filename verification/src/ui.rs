//! Small pieces of the terminal interface that are rules rather than
//! drawing: names, widths, rounding of bars, colour matching, filtering.
use crate::import::{find_sub, find_text};
use crate::text::{chars_of, push_char, string_of, trim, trimmed};
use crate::types::DayKind;
use vstd::prelude::*;

verus! {

/// The name of month `m`; 0 reads as January and anything past 12 as
/// December.
pub open spec fn month_text(m: int) -> Seq<char> {
    let i = if m <= 1 {
        0
    } else if m - 1 > 11 {
        11
    } else {
        m - 1
    };
    if i == 0 {
        "January"@
    } else if i == 1 {
        "February"@
    } else if i == 2 {
        "March"@
    } else if i == 3 {
        "April"@
    } else if i == 4 {
        "May"@
    } else if i == 5 {
        "June"@
    } else if i == 6 {
        "July"@
    } else if i == 7 {
        "August"@
    } else if i == 8 {
        "September"@
    } else if i == 9 {
        "October"@
    } else if i == 10 {
        "November"@
    } else {
        "December"@
    }
}

/// The English name of month `m` (1 is January).
pub fn month_name(m: u32) -> (r: &'static str)
    ensures
        r@ == month_text(m as int),
{
    let i = if m <= 1 {
        0
    } else if m - 1 > 11 {
        11
    } else {
        m - 1
    };
    if i == 0 {
        "January"
    } else if i == 1 {
        "February"
    } else if i == 2 {
        "March"
    } else if i == 3 {
        "April"
    } else if i == 4 {
        "May"
    } else if i == 5 {
        "June"
    } else if i == 6 {
        "July"
    } else if i == 7 {
        "August"
    } else if i == 8 {
        "September"
    } else if i == 9 {
        "October"
    } else if i == 10 {
        "November"
    } else {
        "December"
    }
}

/// Where a kind stands in the cycle the day editor steps through: work,
/// vacation, flex, holiday, sick, absence.
pub fn kind_index(k: &DayKind) -> (r: usize)
    ensures
        r == k@.0,
{
    k.tag() as usize
}

/// The characters of the `key label` pairs of a hint row.
pub open spec fn pairs_width(h: Seq<(&str, &str)>) -> int
    decreases h.len(),
{
    if h.len() == 0 {
        0
    } else {
        pairs_width(h.drop_last()) + h.last().0@.len() + 1 + h.last().1@.len()
    }
}

/// The rendered width of a hint row: the leading space, every pair and two
/// spaces between pairs.
pub open spec fn hints_text_width(h: Seq<(&str, &str)>) -> int {
    1 + pairs_width(h) + 2 * (if h.len() > 0 {
        h.len() - 1
    } else {
        0
    })
}

/// Rendered width of a hint row, as a terminal width.
pub fn hints_width(hints: &[(&str, &str)]) -> (r: u16)
    requires
        hints_text_width(hints@) <= usize::MAX,
    ensures
        r == hints_text_width(hints@) as u16,
{
    let mut sum: usize = 0;
    let mut i: usize = 0;
    proof {
        assert(hints@.take(0) =~= Seq::<(&str, &str)>::empty());
    }
    while i < hints.len()
        invariant
            i <= hints@.len(),
            sum == pairs_width(hints@.take(i as int)),
            hints_text_width(hints@) <= usize::MAX,
        decreases hints.len() - i,
    {
        let (k, d) = hints[i];
        proof {
            assert(hints@.take(i + 1).drop_last() =~= hints@.take(i as int));
            assert(hints@.take(i + 1).last() == hints@[i as int]);
            lemma_pairs_grow(hints@, i + 1);
        }
        let kc = chars_of(k);
        let dc = chars_of(d);
        sum = sum + kc.len() + 1 + dc.len();
        i += 1;
    }
    proof {
        assert(hints@.take(hints@.len() as int) =~= hints@);
    }
    let gaps = if hints.len() > 0 {
        2 * (hints.len() - 1)
    } else {
        0
    };
    ((1 + sum + gaps) as u64) as u16
}

proof fn lemma_pairs_grow(h: Seq<(&str, &str)>, i: int)
    requires
        0 <= i <= h.len(),
    ensures
        0 <= pairs_width(h.take(i)) <= pairs_width(h),
    decreases h.len() - i,
{
    if i < h.len() {
        lemma_pairs_grow(h.drop_last(), i);
        assert(h.drop_last().take(i) =~= h.take(i));
    } else {
        assert(h.take(i) =~= h);
        lemma_pairs_nonneg(h);
    }
}

proof fn lemma_pairs_nonneg(h: Seq<(&str, &str)>)
    ensures
        pairs_width(h) >= 0,
    decreases h.len(),
{
    if h.len() > 0 {
        lemma_pairs_nonneg(h.drop_last());
    }
}

/// `s` cut to `w` characters, the last one an ellipsis when it is cut.
pub open spec fn truncated(s: Seq<char>, w: int) -> Seq<char> {
    if s.len() <= w {
        s
    } else {
        s.take(if w >= 1 {
            w - 1
        } else {
            0
        }).push('…')
    }
}

/// `s` cut to `w` characters, ending in `…` when something was cut.
pub fn truncate(s: &str, w: usize) -> (r: String)
    ensures
        r@ == truncated(s@, w as int),
{
    let v = chars_of(s);
    if v.len() <= w {
        return String::from_str(s);
    }
    let keep = if w >= 1 {
        w - 1
    } else {
        0
    };
    let mut r = string_of(&v, 0, keep);
    push_char(&mut r, '…');
    proof {
        assert(v@.subrange(0, keep as int) =~= s@.take(keep as int));
    }
    r
}

/// The level of the 6×6×6 colour cube nearest to a channel value.
pub open spec fn cube_level(v: int) -> int {
    if v < 48 {
        0
    } else if v < 115 {
        1
    } else {
        (v - 35) / 40
    }
}

fn level(v: u8) -> (r: u8)
    ensures
        r == cube_level(v as int),
        r <= 5,
{
    if v < 48 {
        0
    } else if v < 115 {
        1
    } else {
        ((v as u16 - 35) / 40) as u8
    }
}

/// The colour of the 256-colour palette's cube nearest to `#rrggbb`.
pub fn nearest_256(r: u8, g: u8, b: u8) -> (c: u8)
    ensures
        c == 16 + 36 * cube_level(r as int) + 6 * cube_level(g as int) + cube_level(b as int),
{
    16 + 36 * level(r) + 6 * level(g) + level(b)
}

/// `n / d` rounded to the nearest whole number, halves away from zero.
pub open spec fn round_div(n: int, d: int) -> int {
    if (n >= 0) == (d > 0) {
        (2 * abs(n) + abs(d)) / (2 * abs(d))
    } else {
        -((2 * abs(n) + abs(d)) / (2 * abs(d)))
    }
}

pub open spec fn abs(v: int) -> int {
    if v < 0 {
        -v
    } else {
        v
    }
}

pub open spec fn clamp(v: int, lo: int, hi: int) -> int {
    if v < lo {
        lo
    } else if v > hi {
        hi
    } else {
        v
    }
}

/// Where the zero line sits in a bar area of `width` columns, given the
/// largest negative and positive balance on show (as amounts): a column of
/// its own, at the share of the width the negative side takes.
pub open spec fn zero_col(width: int, max_neg: int, max_pos: int) -> int {
    let last = if width >= 1 {
        width - 1
    } else {
        0
    };
    if max_neg == 0 {
        0
    } else if max_pos == 0 {
        last
    } else if last < 2 {
        if max_neg >= max_pos {
            last
        } else {
            0
        }
    } else {
        clamp(round_div(last * max_neg, max_neg + max_pos), 1, last - 1)
    }
}

/// Where the zero line of the chart sits.
pub fn zero_column(width: usize, max_neg: i32, max_pos: i32) -> (r: usize)
    requires
        0 <= max_neg,
        0 <= max_pos,
        max_neg + max_pos <= i32::MAX,
    ensures
        r == zero_col(width as int, max_neg as int, max_pos as int),
{
    let last: usize = if width >= 1 {
        width - 1
    } else {
        0
    };
    if max_neg == 0 {
        return 0;
    }
    if max_pos == 0 {
        return last;
    }
    if last < 2 {
        return if max_neg >= max_pos {
            last
        } else {
            0
        };
    }
    proof {
        assert(last * max_neg <= 0xffff_ffff_ffff_ffff * 0x7fff_ffff) by (nonlinear_arith)
            requires
                last <= 0xffff_ffff_ffff_ffff,
                max_neg <= 0x7fff_ffff,
                0 <= max_neg,
                0 <= last,
        ;
    }
    let n: u128 = last as u128 * max_neg as u128;
    let d: u128 = (max_neg + max_pos) as u128;
    let q = (2 * n + d) / (2 * d);
    let r = if q < 1 {
        1
    } else if q > (last - 1) as u128 {
        last - 1
    } else {
        q as usize
    };
    r
}

/// A bar's length in cells for `value` of `max` over `span` cells: the
/// share rounded to the nearest, a bar below zero read as none, but never
/// rounded away to nothing nor longer than the span.
pub open spec fn bar_cells(span: int, value: int, max: int) -> int {
    if value == 0 || max == 0 || span == 0 {
        0
    } else {
        let q = round_div(span * value, max);
        clamp(if q < 0 {
            0
        } else {
            q
        }, 1, span)
    }
}

proof fn lemma_bar_rounding(span: int, value: int, max: int)
    requires
        span > 0,
        value != 0,
        max != 0,
    ensures
        ((value < 0) != (max < 0)) ==> round_div(span * value, max) <= 0,
        ((value < 0) == (max < 0)) ==> round_div(span * value, max) == (2 * (span * abs(value))
            + abs(max)) / (2 * abs(max)),
{
    assert(value < 0 ==> span * value < 0) by (nonlinear_arith)
        requires
            span > 0,
    ;
    assert(value > 0 ==> span * value > 0) by (nonlinear_arith)
        requires
            span > 0,
    ;
    assert(abs(span * value) == span * abs(value)) by (nonlinear_arith)
        requires
            span > 0,
    ;
    let num = 2 * abs(span * value) + abs(max);
    assert(num / (2 * abs(max)) >= 0) by (nonlinear_arith)
        requires
            num >= 0,
            abs(max) > 0,
    ;
}

/// A bar length in cells: proportional to `value`, but never rounded away to
/// nothing — a day that is 4 minutes short still has to be visible.
pub fn bar_len(span: usize, value: i32, max: i32) -> (r: usize)
    ensures
        r == bar_cells(span as int, value as int, max as int),
{
    if value == 0 || max == 0 || span == 0 {
        return 0;
    }
    let an: u128 = if value < 0 {
        (0 - value as i64) as u128
    } else {
        value as u128
    };
    let ad: u128 = if max < 0 {
        (0 - max as i64) as u128
    } else {
        max as u128
    };
    proof {
        lemma_bar_rounding(span as int, value as int, max as int);
    }
    if (value < 0) != (max < 0) {
        return 1;
    }
    proof {
        assert(span * an <= 0xffff_ffff_ffff_ffff * 0x8000_0000) by (nonlinear_arith)
            requires
                span <= 0xffff_ffff_ffff_ffff,
                an <= 0x8000_0000,
                0 <= an,
                0 <= span,
        ;
    }
    let n: u128 = span as u128 * an;
    proof {
        assert(span * value == (if value < 0 { -(n as int) } else { n as int })) by (nonlinear_arith)
            requires
                n == span * an,
                an == (if value < 0 { -value } else { value as int }),
        ;
    }
    let mag = (2 * n + ad) / (2 * ad);
    if mag < 1 {
        1
    } else if mag > span as u128 {
        span
    } else {
        mag as usize
    }
}

/// What the bars of the statistics chart measure.
#[derive(Clone, Copy, Debug, PartialEq, Eq, Structural)]
pub enum ChartMode {
    /// One bar per period, each the balance that period earned on its own.
    PerPeriod,
    /// One bar per period, each the balance as it stood when that period
    /// ended.
    Running,
}

/// What `str::to_lowercase` makes of a text.
pub uninterp spec fn lowercase_text(s: Seq<char>) -> Seq<char>;

/// `str::to_lowercase`: each character replaced by its lowercase mapping,
/// so an empty text stays empty.
#[verifier::external_body]
pub(crate) fn lowercase(s: &str) -> (r: String)
    ensures
        r@ == lowercase_text(s@),
        s@.len() == 0 ==> r@.len() == 0,
{
    s.to_lowercase()
}

/// The known project names that contain `query`, without regard to case,
/// in their order.
pub open spec fn matching(projects: Seq<String>, q: Seq<char>) -> Seq<Seq<char>>
    decreases projects.len(),
{
    if projects.len() == 0 {
        Seq::empty()
    } else if find_sub(lowercase_text(projects.last()@), q) is Some {
        matching(projects.drop_last(), q).push(projects.last()@)
    } else {
        matching(projects.drop_last(), q)
    }
}

/// The known project names containing `query`, case-insensitively.
pub fn filter_projects(projects: &[String], query: &str) -> (r: Vec<String>)
    ensures
        crate::import::strings_view(r@) == matching(
            projects@,
            lowercase_text(trim(query@)),
        ),
{
    let q = lowercase(trimmed(query).as_str());
    let mut out: Vec<String> = Vec::new();
    let mut i: usize = 0;
    while i < projects.len()
        invariant
            i <= projects@.len(),
            q@ == lowercase_text(trim(query@)),
            crate::import::strings_view(out@) == matching(projects@.take(i as int), q@),
        decreases projects.len() - i,
    {
        proof {
            assert(projects@.take(i + 1).drop_last() =~= projects@.take(i as int));
            assert(projects@.take(i + 1).last() == projects@[i as int]);
        }
        let l = lowercase(projects[i].as_str());
        if find_text(l.as_str(), q.as_str()).is_some() {
            let ghost ov = out@;
            out.push(projects[i].clone());
            proof {
                assert(crate::import::strings_view(out@) =~= crate::import::strings_view(ov).push(
                    projects@[i as int]@,
                ));
            }
        }
        i += 1;
    }
    proof {
        assert(projects@.take(projects@.len() as int) =~= projects@);
    }
    out
}

/// A field of a form: its label and the placeholder shown while it is empty.
#[derive(Debug, Clone, PartialEq, Eq)]
pub struct FieldSpec {
    pub label: String,
    pub placeholder: String,
}

impl FieldSpec {
    pub fn new(label: String, placeholder: String) -> (r: FieldSpec)
        ensures
            r.label == label,
            r.placeholder == placeholder,
    {
        FieldSpec { label, placeholder }
    }
}

/// The fields of the settings form.
pub fn settings_fields() -> (r: Vec<FieldSpec>)
    ensures
        r@.len() == 4,
        r@[0].label@ == "Start date"@ && r@[0].placeholder@ == "2026-09-15"@,
        r@[1].label@ == "Initial balance"@ && r@[1].placeholder@ == "+00:00"@,
        r@[2].label@ == "Daily target"@ && r@[2].placeholder@ == "07:48"@,
        r@[3].label@ == "Vacation days"@ && r@[3].placeholder@ == "30"@,
{
    let mut v: Vec<FieldSpec> = Vec::new();
    v.push(FieldSpec::new(String::from_str("Start date"), String::from_str("2026-09-15")));
    v.push(FieldSpec::new(String::from_str("Initial balance"), String::from_str("+00:00")));
    v.push(FieldSpec::new(String::from_str("Daily target"), String::from_str("07:48")));
    v.push(FieldSpec::new(String::from_str("Vacation days"), String::from_str("30")));
    v
}

/// The one field of the project picker.
pub fn picker_fields() -> (r: Vec<FieldSpec>)
    ensures
        r@.len() == 1,
        r@[0].label@ == "Project"@ && r@[0].placeholder@ == "type to filter, up/down to pick"@,
{
    let mut v: Vec<FieldSpec> = Vec::new();
    v.push(FieldSpec::new(String::from_str("Project"), String::from_str("type to filter, up/down to pick")));
    v
}

/// How the month screen divides its area.
#[derive(Clone, Copy, Debug, PartialEq, Eq)]
pub struct MonthLayout {
    /// Whether the table has a comment column.
    pub show_comment: bool,
    /// Whether the summary is squeezed under the table.
    pub stacked: bool,
    /// The rows the summary takes.
    pub summary_h: u16,
    /// The width left to the comment column, when it is shown.
    pub comment_w: u16,
}

/// The columns of the month table besides the comment: day, project,
/// start, end, gross and net, and the gaps between them.
pub const FIXED_COLUMNS: u16 = 63;

/// The rows the month summary wants: a line per project and four more, at
/// least five.
pub open spec fn summary_rows(n_projects: int) -> int {
    if n_projects + 4 > 5 {
        n_projects + 4
    } else {
        5
    }
}

/// The month screen's layout in a `width` by `height` area with
/// `n_projects` project totals: the comment column from 90 columns on, in
/// what the fixed columns leave inside the border; below 100 columns the
/// summary sits under the table and takes at most a third of the height.
pub fn month_layout(width: u16, height: u16, n_projects: usize) -> (r: MonthLayout)
    requires
        n_projects + 4 <= u16::MAX,
    ensures
        r.show_comment == (width >= 90),
        r.stacked == (width < 100),
        r.summary_h == if width < 100 {
            let third = if height / 3 > 1 {
                height / 3
            } else {
                1
            };
            if summary_rows(n_projects as int) < third {
                summary_rows(n_projects as int)
            } else {
                third as int
            }
        } else {
            summary_rows(n_projects as int)
        },
        r.comment_w == if width >= 90 {
            if width - 2 > FIXED_COLUMNS {
                width - 2 - FIXED_COLUMNS
            } else {
                0
            }
        } else {
            0
        },
{
    let wanted: u16 = if n_projects as u16 + 4 > 5 {
        n_projects as u16 + 4
    } else {
        5
    };
    let stacked = width < 100;
    let summary_h = if stacked {
        let third = if height / 3 > 1 {
            height / 3
        } else {
            1
        };
        if wanted < third {
            wanted
        } else {
            third
        }
    } else {
        wanted
    };
    let show_comment = width >= 90;
    let comment_w = if show_comment && width - 2 > FIXED_COLUMNS {
        width - 2 - FIXED_COLUMNS
    } else {
        0
    };
    MonthLayout { show_comment, stacked, summary_h, comment_w }
}

} // verus!
