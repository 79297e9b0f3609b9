//! Day kinds, time entries, days and projects.
use crate::date::{Date, Time};
use crate::minutes::Minutes;
use crate::text::chars_of;
use vstd::prelude::*;

verus! {

/// What a day is: a working day, or one of the kinds that are not.
#[derive(Debug, PartialEq, Eq, Hash)]
pub enum DayKind {
    Work,
    Vacation,
    Flex,
    Holiday,
    Sick,
    Absence { label: String },
}

/// A kind as a number (`Work` is 0, ..., `Absence` is 5) and, for an
/// absence, its label.
impl View for DayKind {
    type V = (int, Seq<char>);

    open spec fn view(&self) -> (int, Seq<char>) {
        match self {
            DayKind::Work => (0, Seq::empty()),
            DayKind::Vacation => (1, Seq::empty()),
            DayKind::Flex => (2, Seq::empty()),
            DayKind::Holiday => (3, Seq::empty()),
            DayKind::Sick => (4, Seq::empty()),
            DayKind::Absence { label } => (5, label@),
        }
    }
}

/// The names kinds are stored and typed under, by number.
pub open spec fn kind_name(tag: int) -> Seq<char> {
    if tag == 0 {
        "work"@
    } else if tag == 1 {
        "vacation"@
    } else if tag == 2 {
        "flex"@
    } else if tag == 3 {
        "holiday"@
    } else if tag == 4 {
        "sick"@
    } else {
        "absence"@
    }
}

/// `c` with an ASCII capital turned into its small letter.
pub open spec fn lower_char(c: char) -> char {
    if 'A' <= c <= 'Z' {
        ((c as int) + 32) as char
    } else {
        c
    }
}

/// `str::to_ascii_lowercase`.
pub open spec fn ascii_lower(s: Seq<char>) -> Seq<char> {
    Seq::new(s.len(), |i: int| lower_char(s[i]))
}

/// The number of the kind named `s` (any ASCII case), if it names one.
pub open spec fn kind_of_name(s: Seq<char>) -> Option<int> {
    let l = ascii_lower(s);
    if l == "work"@ {
        Some(0)
    } else if l == "vacation"@ {
        Some(1)
    } else if l == "flex"@ {
        Some(2)
    } else if l == "holiday"@ {
        Some(3)
    } else if l == "sick"@ {
        Some(4)
    } else if l == "absence"@ {
        Some(5)
    } else {
        None
    }
}

/// What [`DayKind::parse`] makes of a name and an optional label: an absence
/// without a label is labelled `absence`.
pub open spec fn parse_kind(s: Seq<char>, label: Option<Seq<char>>) -> Option<(int, Seq<char>)> {
    match kind_of_name(s) {
        None => None,
        Some(t) => if t == 5 {
            Some(
                (
                    5,
                    match label {
                        Some(l) => l,
                        None => "absence"@,
                    },
                ),
            )
        } else {
            Some((t, Seq::empty()))
        },
    }
}

/// The characters of an optional string slice.
pub open spec fn str_opt(s: Option<&str>) -> Option<Seq<char>> {
    match s {
        Some(t) => Some(t@),
        None => None,
    }
}

/// The name a kind is shown with.
pub open spec fn kind_display(k: (int, Seq<char>)) -> Seq<char> {
    if k.0 == 0 {
        "Work"@
    } else if k.0 == 1 {
        "Vacation"@
    } else if k.0 == 2 {
        "Flex day"@
    } else if k.0 == 3 {
        "Holiday"@
    } else if k.0 == 4 {
        "Sick"@
    } else {
        k.1
    }
}

/// `c` in small letters, if it is an ASCII capital.
pub fn to_lower(c: char) -> (r: char)
    ensures
        r == lower_char(c),
{
    if 'A' <= c && c <= 'Z' {
        ((c as u8) + 32) as char
    } else {
        c
    }
}

/// Whether `v` spells the small-letter `lit`, ASCII letters compared
/// without case.
pub fn spells_lower(v: &Vec<char>, lit: &str) -> (r: bool)
    requires
        lit@ == ascii_lower(lit@),
    ensures
        r == (ascii_lower(v@) == lit@),
{
    let w = chars_of(lit);
    if v.len() != w.len() {
        proof {
            assert(ascii_lower(v@).len() == v@.len());
        }
        return false;
    }
    let mut i: usize = 0;
    while i < v.len()
        invariant
            i <= v.len() == w.len(),
            w@ == lit@,
            lit@ == ascii_lower(lit@),
            forall|j: int| 0 <= j < i ==> lower_char(v@[j]) == w@[j],
        decreases v.len() - i,
    {
        if to_lower(v[i]) != w[i] {
            proof {
                if ascii_lower(v@) == lit@ {
                    assert(ascii_lower(v@)[i as int] == lower_char(v@[i as int]));
                }
            }
            return false;
        }
        i += 1;
    }
    proof {
        assert(ascii_lower(v@) =~= lit@);
    }
    true
}

impl Clone for DayKind {
    fn clone(&self) -> (r: DayKind)
        ensures
            r == *self,
    {
        match self {
            DayKind::Work => DayKind::Work,
            DayKind::Vacation => DayKind::Vacation,
            DayKind::Flex => DayKind::Flex,
            DayKind::Holiday => DayKind::Holiday,
            DayKind::Sick => DayKind::Sick,
            DayKind::Absence { label } => DayKind::Absence { label: label.clone() },
        }
    }
}

impl DayKind {
    /// The name the kind is stored and typed under.
    pub fn as_str(&self) -> (r: &'static str)
        ensures
            r@ == kind_name(self@.0),
    {
        match self {
            DayKind::Work => "work",
            DayKind::Vacation => "vacation",
            DayKind::Flex => "flex",
            DayKind::Holiday => "holiday",
            DayKind::Sick => "sick",
            DayKind::Absence { .. } => "absence",
        }
    }

    /// The kind named `kind`, in any ASCII case; an absence takes `label`, or
    /// is labelled `absence` without one.
    pub fn parse(kind: &str, label: Option<&str>) -> (r: Option<DayKind>)
        ensures
            r is Some <==> parse_kind(kind@, str_opt(label)) is Some,
            r matches Some(k) ==> Some(k@) == parse_kind(kind@, str_opt(label)),
    {
        proof {
            reveal_strlit("work");
            reveal_strlit("vacation");
            reveal_strlit("flex");
            reveal_strlit("holiday");
            reveal_strlit("sick");
            reveal_strlit("absence");
            assert("work"@ =~= ascii_lower("work"@));
            assert("vacation"@ =~= ascii_lower("vacation"@));
            assert("flex"@ =~= ascii_lower("flex"@));
            assert("holiday"@ =~= ascii_lower("holiday"@));
            assert("sick"@ =~= ascii_lower("sick"@));
            assert("absence"@ =~= ascii_lower("absence"@));
        }
        let v = chars_of(kind);
        if spells_lower(&v, "work") {
            Some(DayKind::Work)
        } else if spells_lower(&v, "vacation") {
            Some(DayKind::Vacation)
        } else if spells_lower(&v, "flex") {
            Some(DayKind::Flex)
        } else if spells_lower(&v, "holiday") {
            Some(DayKind::Holiday)
        } else if spells_lower(&v, "sick") {
            Some(DayKind::Sick)
        } else if spells_lower(&v, "absence") {
            let text = match label {
                Some(l) => String::from_str(l),
                None => String::from_str("absence"),
            };
            Some(DayKind::Absence { label: text })
        } else {
            None
        }
    }

    /// Whether the daily target is deducted on a weekday of this kind.
    pub fn has_target(&self) -> (r: bool)
        ensures
            r == (self@.0 == 0 || self@.0 == 2),
    {
        match self {
            DayKind::Work | DayKind::Flex => true,
            _ => false,
        }
    }

    /// Only work days may carry time entries.
    pub fn allows_entries(&self) -> (r: bool)
        ensures
            r == (self@.0 == 0),
    {
        match self {
            DayKind::Work => true,
            _ => false,
        }
    }

    /// Whether this is [`DayKind::Work`].
    pub fn is_work(&self) -> (r: bool)
        ensures
            r == (self@.0 == 0),
    {
        self.allows_entries()
    }

    /// The name the kind is shown with; an absence shows its label.
    pub fn display_name(&self) -> (r: String)
        ensures
            r@ == kind_display(self@),
    {
        match self {
            DayKind::Work => String::from_str("Work"),
            DayKind::Vacation => String::from_str("Vacation"),
            DayKind::Flex => String::from_str("Flex day"),
            DayKind::Holiday => String::from_str("Holiday"),
            DayKind::Sick => String::from_str("Sick"),
            DayKind::Absence { label } => label.clone(),
        }
    }

    /// The label of an absence.
    pub fn label(&self) -> (r: Option<&str>)
        ensures
            r is Some <==> self@.0 == 5,
            r matches Some(l) ==> l@ == self@.1,
    {
        match self {
            DayKind::Absence { label } => Some(label.as_str()),
            _ => None,
        }
    }

    /// Whether two kinds are the same, an absence by its label too.
    pub fn same_as(&self, other: &DayKind) -> (r: bool)
        ensures
            r == (self@ == other@),
    {
        let a = self.tag();
        let b = other.tag();
        if a != b {
            return false;
        }
        match (self, other) {
            (DayKind::Absence { label: x }, DayKind::Absence { label: y }) => {
                let same = x.eq(y);
                proof {
                    assert(same == (x@ == y@));
                }
                same
            },
            _ => {
                assert(self@.1 =~= other@.1);
                true
            },
        }
    }

    /// The kind's number, see the view.
    pub fn tag(&self) -> (r: u8)
        ensures
            r == self@.0,
    {
        match self {
            DayKind::Work => 0,
            DayKind::Vacation => 1,
            DayKind::Flex => 2,
            DayKind::Holiday => 3,
            DayKind::Sick => 4,
            DayKind::Absence { .. } => 5,
        }
    }
}

/// Minutes since midnight of a clock time, seconds dropped.
pub fn minutes_of(t: Time) -> (m: i32)
    ensures
        m == t.mins(),
        0 <= m < 1440,
{
    t.minute_of_day()
}

/// Start and end of a clock span in minutes since midnight: an end at or
/// before the start lies on the next day, 1440 minutes on.
pub open spec fn span(s: int, e: int) -> (int, int) {
    if e <= s {
        (s, e + 1440)
    } else {
        (s, e)
    }
}

/// A booked stretch of work on one project.
#[derive(Debug, PartialEq, Eq)]
pub struct Entry {
    pub id: i64,
    pub date: Date,
    pub start: Time,
    pub end: Time,
    pub project: String,
    pub comment: String,
    /// The part of its session's break deduction assigned to this entry by
    /// hand, if any.
    pub break_share: Option<Minutes>,
}

impl Clone for Entry {
    fn clone(&self) -> (r: Entry)
        ensures
            r == *self,
    {
        Entry {
            id: self.id,
            date: self.date,
            start: self.start,
            end: self.end,
            project: self.project.clone(),
            comment: self.comment.clone(),
            break_share: self.break_share,
        }
    }
}

impl Entry {
    /// Start and end in minutes since midnight; the end lies past 1440 when
    /// the entry crosses midnight.
    pub open spec fn iv(&self) -> (int, int) {
        span(self.start.mins(), self.end.mins())
    }

    /// The entry's length in minutes.
    pub open spec fn len(&self) -> int {
        self.iv().1 - self.iv().0
    }

    /// (start, end) in minutes since midnight; end > 1440 when the entry
    /// crosses midnight.
    pub fn interval(&self) -> (r: (i32, i32))
        ensures
            r.0 == self.iv().0,
            r.1 == self.iv().1,
            0 <= r.0 < 1440,
            r.0 < r.1 <= r.0 + 1440,
    {
        let s = minutes_of(self.start);
        let mut e = minutes_of(self.end);
        if e <= s {
            e += 1440;
        }
        (s, e)
    }

    /// How long the entry runs: at least a minute, at most a day (an entry
    /// that ends when it starts is a 24-hour shift).
    pub fn duration(&self) -> (r: Minutes)
        ensures
            r.0 == self.len(),
            1 <= r.0 <= 1440,
    {
        let (s, e) = self.interval();
        Minutes(e - s)
    }

    /// Whether the entry ends on the next day.
    pub fn crosses_midnight(&self) -> (r: bool)
        ensures
            r == (self.end.mins() <= self.start.mins()),
    {
        minutes_of(self.end) <= minutes_of(self.start)
    }
}

/// The kind a stored row names, with its label; a row no kind reads from is
/// a work day.
pub fn kind_from_row(kind: String, label: Option<String>) -> (r: DayKind)
    ensures
        r@ == match parse_kind(kind@, match label {
            Some(l) => Some(l@),
            None => None,
        }) {
            Some(k) => k,
            None => (0, Seq::empty()),
        },
{
    let l: Option<&str> = match &label {
        Some(s) => Some(s.as_str()),
        None => None,
    };
    match DayKind::parse(kind.as_str(), l) {
        Some(k) => k,
        None => DayKind::Work,
    }
}

/// A day with its kind and its entries.
#[derive(Debug, PartialEq, Eq)]
pub struct Day {
    pub date: Date,
    pub kind: DayKind,
    pub entries: Vec<Entry>,
}

/// A project entries are booked on.
#[derive(Clone, Debug, PartialEq, Eq)]
pub struct Project {
    pub id: i64,
    pub name: String,
    pub color_index: u8,
    pub archived: bool,
}

} // verus!
