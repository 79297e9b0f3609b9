//! The rules of the running clock: what a clock-out books, where the next
//! session starts, when a break ends, which project the time goes to, and
//! how minutes of the day are stored.
use crate::date::{Date, DateTime, Time, in_range};
use crate::text::{chars_of, trim, trimmed};
use crate::time_parse::clock_out_end;
use crate::types::Entry;
use vstd::prelude::*;

verus! {

/// What the open session is doing: running the clock on its project, or
/// paused on it with the work so far already booked.
#[derive(Clone, Copy, Debug, PartialEq, Eq, Structural)]
pub enum SessionState {
    Working,
    Break,
}

impl SessionState {
    /// The spelling the stored state uses.
    pub fn as_str(self) -> (r: &'static str)
        ensures
            r@ == (match self {
                SessionState::Working => "working"@,
                SessionState::Break => "break"@,
            }),
    {
        match self {
            SessionState::Working => "working",
            SessionState::Break => "break",
        }
    }

    /// A stored state: `break` is a break, anything else (every session from
    /// before the state existed) is working.
    pub fn parse(s: &str) -> (r: SessionState)
        ensures
            r == (if s@ == "break"@ {
                SessionState::Break
            } else {
                SessionState::Working
            }),
    {
        proof {
            reveal_strlit("break");
        }
        let v = chars_of(s);
        if v.len() == 5 && v[0] == 'b' && v[1] == 'r' && v[2] == 'e' && v[3] == 'a' && v[4] == 'k' {
            proof {
                assert(s@ =~= "break"@);
            }
            SessionState::Break
        } else {
            proof {
                if s@ == "break"@ {
                    assert(v@[0] == 'b' && v@[1] == 'r' && v@[2] == 'e' && v@[3] == 'a' && v@[4] == 'k');
                }
            }
            SessionState::Working
        }
    }

    pub fn is_break(self) -> (r: bool)
        ensures
            r == (self == SessionState::Break),
    {
        match self {
            SessionState::Break => true,
            SessionState::Working => false,
        }
    }
}

/// The open session: while on a break, `date` and `start` are when the break
/// began and `project` is the one to come back to.
#[derive(Clone, Debug, PartialEq, Eq)]
pub struct Session {
    pub date: Date,
    pub start: Time,
    pub project: Option<String>,
    pub state: SessionState,
}

/// The end a clock-out at `now` books for a session begun at `start` on
/// `date`: on the same day, `now` to the minute but never before the start,
/// one minute on when that is the start's own minute; on a later day, `now`
/// to the minute (the entry runs past midnight). A clock-out dated before the
/// session has no end.
pub open spec fn booked_end(date: Date, start: Time, now: DateTime) -> Option<int> {
    if now.date.num() < date.num() {
        None
    } else if now.date.num() > date.num() {
        Some(now.time.mins())
    } else {
        let end = if now.time.mins() < start.mins() {
            start.mins()
        } else {
            now.time.mins()
        };
        Some(if end == start.mins() {
            (end + 1) % 1440
        } else {
            end
        })
    }
}

/// The end a clock-out books; `None` when the clock reads a day before the
/// session's.
pub fn booking_end(date: Date, start: Time, now: DateTime) -> (r: Option<Time>)
    ensures
        r is Some <==> booked_end(date, start, now) is Some,
        r matches Some(t) ==> Some(t.mins()) == booked_end(date, start, now) && t@.2 == 0,
{
    let end = now.time.to_minute();
    if now.date.before(&date) {
        None
    } else if date.before(&now.date) {
        Some(end)
    } else {
        let at = if end.minute_of_day() < start.minute_of_day() {
            start
        } else {
            end
        };
        Some(clock_out_end(start, at))
    }
}

/// The day the session after `entry` belongs to: the next day when the entry
/// ran past midnight, which may lie past the last date there is.
pub fn day_after_entry(entry: &Entry) -> (r: Option<Date>)
    ensures
        entry.end.mins() <= entry.start.mins() ==> (r is Some <==> in_range(entry.date.num() + 1)),
        entry.end.mins() <= entry.start.mins() ==> (r matches Some(d) ==> d.num() == entry.date.num() + 1),
        entry.end.mins() > entry.start.mins() ==> r == Some(entry.date),
{
    if entry.crosses_midnight() {
        entry.date.checked_add_days(1)
    } else {
        Some(entry.date)
    }
}

/// When work resumes after a break: at `now` to the minute, but never
/// before the break began.
pub fn resume_at(break_start: DateTime, now: DateTime) -> (r: DateTime)
    ensures
        break_start.secs() > now.secs() ==> r.date == break_start.date && r.time@ == (
            break_start.time@.0,
            break_start.time@.1,
            0int,
        ),
        break_start.secs() <= now.secs() ==> r.date == now.date && r.time@ == (
            now.time@.0,
            now.time@.1,
            0int,
        ),
{
    let later = break_start.date.before(&now.date) || (break_start.date.same(&now.date) && (
    break_start.time.hour() < now.time.hour() || (break_start.time.hour() == now.time.hour() && (
    break_start.time.minute() < now.time.minute() || (break_start.time.minute()
        == now.time.minute() && break_start.time.second() <= now.time.second())))));
    break_start.time.valid();
    now.time.valid();
    break_start.date.valid();
    proof {
        if break_start.date.num() < now.date.num() {
            assert(break_start.date.num() * 86400 + 86400 <= now.date.num() * 86400);
        } else if break_start.date.num() > now.date.num() {
            assert(now.date.num() * 86400 + 86400 <= break_start.date.num() * 86400);
        }
    }
    if later {
        DateTime::new(now.date, now.time.to_minute())
    } else {
        DateTime::new(break_start.date, break_start.time.to_minute())
    }
}

/// The project the time goes to: the one asked for (blank counts as none),
/// else the session's, else the one used last.
pub open spec fn chosen_project(
    asked: Option<Seq<char>>,
    remembered: Option<Seq<char>>,
    last_used: Option<Seq<char>>,
) -> Option<Seq<char>> {
    match asked {
        Some(a) if trim(a).len() > 0 => Some(trim(a)),
        _ => match remembered {
            Some(p) => Some(p),
            None => last_used,
        },
    }
}

/// The characters of an optional string.
pub open spec fn opt_view(s: Option<String>) -> Option<Seq<char>> {
    match s {
        Some(t) => Some(t@),
        None => None,
    }
}

/// The characters of an optional string slice.
pub open spec fn opt_str_view(s: Option<&str>) -> Option<Seq<char>> {
    match s {
        Some(t) => Some(t@),
        None => None,
    }
}

/// Which project the time goes to; `None` when nothing names one.
pub fn choose_project(asked: Option<&str>, remembered: Option<String>, last_used: Option<String>) -> (r:
    Option<String>)
    ensures
        opt_view(r) == chosen_project(opt_str_view(asked), opt_view(remembered), opt_view(last_used)),
{
    if let Some(a) = asked {
        let t = trimmed(a);
        if !t.as_str().is_empty() {
            return Some(t);
        }
    }
    match remembered {
        Some(p) => Some(p),
        None => last_used,
    }
}

/// A stored minute of the day as a time; a value outside the day is a
/// corrupt row, not a time.
pub fn time_from_min(m: i64) -> (r: Option<Time>)
    ensures
        r is Some <==> 0 <= m < 1440,
        r matches Some(t) ==> t.mins() == m && t@.2 == 0,
{
    if 0 <= m && m < 1440 {
        Some(Time::from_minute_of_day(m as u32))
    } else {
        None
    }
}

/// The colour a new project gets: the next of the ten, by how many projects
/// there are already.
pub fn next_color(count: i64) -> (r: u8)
    requires
        count >= 0,
    ensures
        r == count % 10,
{
    (count % 10) as u8
}

} // verus!
