//! Reading clock times and dates as they are typed, and the end a clock-out
//! books.
use crate::date::{Date, Time, chrono_ymd_text, in_range};
use crate::error::CoreError;
use crate::text::{
    all_digits, chars_of, digits_value, i64_text, int_text, is_digit, parse_int, string_of, trim,
    trim_bounds, u32_text,
};
use crate::types::{ascii_lower, spells_lower};
use crate::text::lemma_digits_value_nonneg;
use vstd::prelude::*;

verus! {

/// End time to record when clocking out at `now` for a session started at
/// `start`: `now` to the minute, or one minute later when that is the very
/// minute the session started (a zero-length entry would read as a whole
/// day). At 23:59 that is 00:00, a one-minute entry across midnight.
pub fn clock_out_end(start: Time, now: Time) -> (r: Time)
    ensures
        r@.2 == 0,
        r.mins() == (if now.mins() == start.mins() {
            (now.mins() + 1) % 1440
        } else {
            now.mins()
        }),
{
    let e = now.minute_of_day();
    let s = start.minute_of_day();
    if e == s {
        Time::from_minute_of_day(((e + 1) % 1440) as u32)
    } else {
        Time::from_minute_of_day(e as u32)
    }
}

/// Refuses an entry that ends on the minute it starts: read back, it would
/// be a whole day.
pub fn check_range(start: Time, end: Time) -> (r: Result<(), CoreError>)
    ensures
        r is Ok <==> start.mins() != end.mins(),
        r matches Err(e) ==> e == CoreError::InvalidRange,
{
    if start.minute_of_day() == end.minute_of_day() {
        Err(CoreError::InvalidRange)
    } else {
        Ok(())
    }
}

/// Index of the first `:` or `.` in `s`, if any.
pub open spec fn find_sep(s: Seq<char>) -> Option<int>
    decreases s.len(),
{
    if s.len() == 0 {
        None
    } else if s[0] == ':' || s[0] == '.' {
        Some(0)
    } else {
        match find_sep(s.drop_first()) {
            Some(i) => Some(i + 1),
            None => None,
        }
    }
}

/// Hours and minutes as typed, before they are checked: `H:M` or `H.M`
/// (each part read as an unsigned number), or one to four digits, the last
/// two of three or four being the minutes.
pub open spec fn hm_text(t: Seq<char>) -> Option<(int, int)> {
    if t.len() == 0 {
        None
    } else {
        match find_sep(t) {
            Some(i) => match (u32_text(t.take(i)), u32_text(t.skip(i + 1))) {
                (Some(h), Some(m)) => Some((h, m)),
                _ => None,
            },
            None => if !all_digits(t) {
                None
            } else if t.len() <= 2 {
                Some((digits_value(t), 0))
            } else if t.len() <= 4 {
                Some((digits_value(t.take(t.len() - 2)), digits_value(t.skip(t.len() - 2))))
            } else {
                None
            },
        }
    }
}

/// The clock time `s` names, if it names one: hours below 24, minutes below
/// 60, whitespace around it ignored.
pub open spec fn time_text(s: Seq<char>) -> Option<(int, int)> {
    match hm_text(trim(s)) {
        Some(hm) => if 0 <= hm.0 < 24 && 0 <= hm.1 < 60 {
            Some(hm)
        } else {
            None
        },
        None => None,
    }
}

/// A run of ASCII digits is left as it is by trimming and holds no
/// separator.
proof fn lemma_plain_digits(s: Seq<char>)
    requires
        s.len() > 0,
        forall|i: int| 0 <= i < s.len() ==> '0' <= #[trigger] s[i] <= '9',
    ensures
        trim(s) == s,
        find_sep(s) is None,
        all_digits(s),
{
    assert(!crate::text::is_ws(s[0]));
    assert(crate::text::lead_ws(s) == 0);
    assert(s.skip(0) =~= s);
    assert(s.last() == s[s.len() - 1]);
    assert(!crate::text::is_ws(s.last()));
    assert(crate::text::trail_ws(s) == 0);
    assert(s.take(s.len() as int) =~= s);
    lemma_find_sep(s, s.len() as int);
}

/// The value of one digit, and of two.
proof fn lemma_small_values(c1: char, c2: char)
    ensures
        crate::text::digits_value(seq![c1]) == c1 as int - '0' as int,
        crate::text::digits_value(seq![c1, c2]) == 10 * (c1 as int - '0' as int) + (c2 as int - '0' as int),
{
    assert(seq![c1].drop_last() =~= Seq::<char>::empty());
    assert(seq![c1].last() == c1);
    assert(crate::text::digits_value(Seq::<char>::empty()) == 0);
    assert(seq![c1, c2].drop_last() =~= seq![c1]);
    assert(seq![c1, c2].last() == c2);
    assert(crate::text::digits_value(seq![c1, c2]) == crate::text::digits_value(seq![c1, c2].drop_last()) * 10
        + crate::text::digit_value(c2));
}

/// A bare number of one or two digits names a whole hour: `8` and `08` are
/// 08:00, `17` is 17:00, and two digits that make 24 or more name no time.
pub proof fn a_bare_number_is_a_whole_hour(c1: char, c2: char)
    requires
        '0' <= c1 <= '9',
        '0' <= c2 <= '9',
    ensures
        time_text(seq![c1]) == Some((c1 as int - '0' as int, 0int)),
        time_text(seq![c1, c2]) == if 10 * (c1 as int - '0' as int) + (c2 as int - '0' as int) < 24 {
            Some((10 * (c1 as int - '0' as int) + (c2 as int - '0' as int), 0int))
        } else {
            None
        },
{
    let one = seq![c1];
    let two = seq![c1, c2];
    lemma_plain_digits(one);
    lemma_plain_digits(two);
    lemma_small_values(c1, c2);
}

/// Three or four digits end in the minutes: `930` is 09:30 and `1745` is
/// 17:45, the digits before the last two being the hour.
pub proof fn the_last_two_digits_are_the_minutes(c1: char, c2: char, c3: char, c4: char)
    requires
        '0' <= c1 <= '9',
        '0' <= c2 <= '9',
        '0' <= c3 <= '9',
        '0' <= c4 <= '9',
    ensures
        ({
            let h = c1 as int - '0' as int;
            let m = 10 * (c2 as int - '0' as int) + (c3 as int - '0' as int);
            time_text(seq![c1, c2, c3]) == if h < 24 && m < 60 {
                Some((h, m))
            } else {
                None
            }
        }),
        ({
            let h = 10 * (c1 as int - '0' as int) + (c2 as int - '0' as int);
            let m = 10 * (c3 as int - '0' as int) + (c4 as int - '0' as int);
            time_text(seq![c1, c2, c3, c4]) == if h < 24 && m < 60 {
                Some((h, m))
            } else {
                None
            }
        }),
{
    let three = seq![c1, c2, c3];
    let four = seq![c1, c2, c3, c4];
    lemma_plain_digits(three);
    lemma_plain_digits(four);
    assert(three.take(1) =~= seq![c1]);
    assert(three.skip(1) =~= seq![c2, c3]);
    assert(four.take(2) =~= seq![c1, c2]);
    assert(four.skip(2) =~= seq![c3, c4]);
    lemma_small_values(c1, c2);
    lemma_small_values(c2, c3);
    lemma_small_values(c3, c4);
}

/// Hours and minutes on either side of a colon or a dot: `09:30`, `9.30`
/// and the like name that time, when the hour is below 24 and the minutes
/// below 60, and no time otherwise.
pub proof fn hours_and_minutes_around_the_separator(c1: char, c2: char, sep: char, c3: char, c4: char)
    requires
        '0' <= c1 <= '9',
        '0' <= c2 <= '9',
        '0' <= c3 <= '9',
        '0' <= c4 <= '9',
        sep == ':' || sep == '.',
    ensures
        ({
            let h = 10 * (c1 as int - '0' as int) + (c2 as int - '0' as int);
            let m = 10 * (c3 as int - '0' as int) + (c4 as int - '0' as int);
            time_text(seq![c1, c2, sep, c3, c4]) == if h < 24 && m < 60 {
                Some((h, m))
            } else {
                None
            }
        }),
        ({
            let h = c2 as int - '0' as int;
            let m = 10 * (c3 as int - '0' as int) + (c4 as int - '0' as int);
            time_text(seq![c2, sep, c3, c4]) == if m < 60 {
                Some((h, m))
            } else {
                None
            }
        }),
{
    let five = seq![c1, c2, sep, c3, c4];
    let four = seq![c2, sep, c3, c4];
    lemma_small_values(c1, c2);
    lemma_small_values(c2, c3);
    lemma_small_values(c3, c4);
    assert(!crate::text::is_ws(c1) && !crate::text::is_ws(c2) && !crate::text::is_ws(c4));
    assert(crate::text::lead_ws(five) == 0 && five.skip(0) =~= five);
    assert(five.last() == c4 && crate::text::trail_ws(five) == 0 && five.take(5) =~= five);
    assert(crate::text::lead_ws(four) == 0 && four.skip(0) =~= four);
    assert(four.last() == c4 && crate::text::trail_ws(four) == 0 && four.take(4) =~= four);
    lemma_find_sep(five, 2);
    lemma_find_sep(four, 1);
    assert(five.take(2) =~= seq![c1, c2]);
    assert(five.skip(3) =~= seq![c3, c4]);
    assert(four.take(1) =~= seq![c2]);
    assert(four.skip(2) =~= seq![c3, c4]);
    assert(all_digits(seq![c1, c2]) && all_digits(seq![c3, c4]) && all_digits(seq![c2]));
}

proof fn lemma_find_sep(s: Seq<char>, i: int)
    requires
        0 <= i <= s.len(),
        forall|j: int| 0 <= j < i ==> s[j] != ':' && s[j] != '.',
        i < s.len() ==> (s[i] == ':' || s[i] == '.'),
    ensures
        find_sep(s) == (if i < s.len() {
            Some(i)
        } else {
            None::<int>
        }),
    decreases i,
{
    if i > 0 {
        assert forall|j: int| 0 <= j < i - 1 implies s.drop_first()[j] != ':' && s.drop_first()[j]
            != '.' by {
            assert(s.drop_first()[j] == s[j + 1]);
        }
        if i < s.len() {
            assert(s.drop_first()[i - 1] == s[i]);
        }
        lemma_find_sep(s.drop_first(), i - 1);
    }
}

/// What `str::parse::<u32>` reads from `v[from..to]`.
pub fn parse_u32(v: &Vec<char>, from: usize, to: usize) -> (r: Option<u32>)
    requires
        from <= to <= v.len(),
    ensures
        r == (match u32_text(v@.subrange(from as int, to as int)) {
            Some(x) => Some(x as u32),
            None => None::<u32>,
        }),
{
    let ghost s = v@.subrange(from as int, to as int);
    if from < to && v[from] == '-' {
        proof {
            assert(s[0] == '-');
        }
        return None;
    }
    match parse_int(v, from, to) {
        Some(x) => {
            if 0 <= x && x <= 0xffff_ffff {
                Some(x as u32)
            } else {
                None
            }
        },
        None => {
            proof {
                if int_text(s) is Some {
                    assert(i64_text(s) is None);
                }
            }
            None
        },
    }
}

/// Digits `v[from..to]` as a number: at most four of them.
fn digits_u32(v: &Vec<char>, from: usize, to: usize) -> (r: u32)
    requires
        from <= to <= v.len(),
        to - from <= 4,
        all_digits(v@.subrange(from as int, to as int)),
    ensures
        r == digits_value(v@.subrange(from as int, to as int)),
{
    let mut acc: u32 = 0;
    let mut i = from;
    while i < to
        invariant
            from <= i <= to <= v.len(),
            to - from <= 4,
            all_digits(v@.subrange(from as int, to as int)),
            acc == digits_value(v@.subrange(from as int, i as int)),
            acc < pow10(i - from),
            pow10(i - from) <= 10000,
        decreases to - i,
    {
        let ghost prev = v@.subrange(from as int, i as int);
        let ghost next = v@.subrange(from as int, i + 1);
        proof {
            assert(next.drop_last() =~= prev);
            assert(v@.subrange(from as int, to as int)[i - from] == v@[i as int]);
            crate::text::lemma_digits_value_nonneg(prev);
            assert(crate::text::is_digit(v@[i as int]));
            assert(pow10(i + 1 - from) == 10 * pow10(i - from));
            lemma_pow10_mono(i + 1 - from, to - from);
        }
        let d = v[i] as u32 - '0' as u32;
        acc = acc * 10 + d;
        i += 1;
    }
    acc
}

/// Ten to the power `n`.
pub open spec fn pow10(n: int) -> int
    decreases n,
{
    if n <= 0 {
        1
    } else {
        10 * pow10(n - 1)
    }
}

proof fn lemma_pow10_mono(a: int, b: int)
    requires
        0 <= a <= b <= 4,
    ensures
        1 <= pow10(a) <= pow10(b) <= 10000,
    decreases b,
{
    reveal_with_fuel(pow10, 5);
}

/// The clock time typed in `s`: `8`, `800`, `0800`, `8:00` or `8.00`, with
/// whitespace around it.
pub fn parse_time(s: &str) -> (r: Result<Time, CoreError>)
    ensures
        r is Ok <==> time_text(s@) is Some,
        r matches Ok(t) ==> time_text(s@) == Some((t@.0, t@.1)) && t@.2 == 0,
        r matches Err(e) ==> (e matches CoreError::InvalidTime(x) && x@ == s@),
{
    let v = chars_of(s);
    let (a, b) = trim_bounds(&v, 0, v.len());
    let ghost t = v@.subrange(a as int, b as int);
    proof {
        assert(v@.subrange(0, v@.len() as int) =~= s@);
    }
    if a == b {
        return Err(CoreError::InvalidTime(String::from_str(s)));
    }
    let mut k = a;
    while k < b && v[k] != ':' && v[k] != '.'
        invariant
            a <= k <= b <= v.len(),
            forall|j: int| a <= j < k ==> v@[j] != ':' && v@[j] != '.',
        decreases b - k,
    {
        k += 1;
    }
    proof {
        assert forall|j: int| 0 <= j < k - a implies t[j] != ':' && t[j] != '.' by {
            assert(t[j] == v@[a + j]);
        }
        if k < b {
            assert(t[k - a] == v@[k as int]);
        }
        lemma_find_sep(t, k - a);
    }
    let hm: Option<(u32, u32)> = if k < b {
        proof {
            assert(t.take(k - a) =~= v@.subrange(a as int, k as int));
            assert(t.skip(k - a + 1) =~= v@.subrange(k + 1, b as int));
        }
        match (parse_u32(&v, a, k), parse_u32(&v, k + 1, b)) {
            (Some(h), Some(m)) => Some((h, m)),
            _ => None,
        }
    } else {
        let mut i = a;
        while i < b && '0' <= v[i] && v[i] <= '9'
            invariant
                a <= i <= b <= v.len(),
                forall|j: int| a <= j < i ==> is_digit(#[trigger] v@[j]),
            decreases b - i,
        {
            i += 1;
        }
        if i < b {
            proof {
                assert(t[i - a] == v@[i as int]);
            }
            None
        } else {
            proof {
                assert(all_digits(t)) by {
                    assert forall|j: int| 0 <= j < t.len() implies is_digit(#[trigger] t[j]) by {
                        assert(t[j] == v@[a + j]);
                    }
                }
            }
            let n = b - a;
            if n <= 2 {
                Some((digits_u32(&v, a, b), 0))
            } else if n <= 4 {
                proof {
                    assert(t.take(t.len() - 2) =~= v@.subrange(a as int, b - 2));
                    assert(t.skip(t.len() - 2) =~= v@.subrange(b - 2, b as int));
                    assert(all_digits(v@.subrange(a as int, b - 2))) by {
                        assert forall|j: int| 0 <= j < b - 2 - a implies is_digit(
                            #[trigger] v@.subrange(a as int, b - 2)[j],
                        ) by {
                            assert(v@.subrange(a as int, b - 2)[j] == t[j]);
                        }
                    }
                    assert(all_digits(v@.subrange(b - 2, b as int))) by {
                        assert forall|j: int| 0 <= j < 2 implies is_digit(
                            #[trigger] v@.subrange(b - 2, b as int)[j],
                        ) by {
                            assert(v@.subrange(b - 2, b as int)[j] == t[n - 2 + j]);
                        }
                    }
                }
                Some((digits_u32(&v, a, b - 2), digits_u32(&v, b - 2, b)))
            } else {
                None
            }
        }
    };
    match hm {
        Some((h, m)) => match Time::from_hms_opt(h, m, 0) {
            Some(time) => Ok(time),
            None => Err(CoreError::InvalidTime(String::from_str(s))),
        },
        None => Err(CoreError::InvalidTime(String::from_str(s))),
    }
}

/// A time range typed as `start-end`.
pub open spec fn range_text(s: Seq<char>) -> Option<((int, int), (int, int))> {
    match crate::text::split_once(s, '-') {
        Some(parts) => match (time_text(parts.0), time_text(parts.1)) {
            (Some(a), Some(b)) => Some((a, b)),
            _ => None,
        },
        None => None,
    }
}

/// Start and end typed as `0900-1530` or `9:00-17:30`.
pub fn parse_time_range(s: &str) -> (r: Result<(Time, Time), CoreError>)
    ensures
        r is Ok <==> range_text(s@) is Some,
        r matches Ok(p) ==> range_text(s@) == Some(((p.0@.0, p.0@.1), (p.1@.0, p.1@.1))),
        r matches Err(e) ==> e is InvalidTime,
{
    let v = chars_of(s);
    let n = v.len();
    let mut k: usize = 0;
    while k < n && v[k] != '-'
        invariant
            k <= n == v.len(),
            forall|j: int| 0 <= j < k ==> v@[j] != '-',
        decreases n - k,
    {
        k += 1;
    }
    proof {
        crate::text::lemma_find_char_from(s@, '-', k as int);
    }
    if k == n {
        return Err(CoreError::InvalidTime(String::from_str(s)));
    }
    let left = string_of(&v, 0, k);
    let right = string_of(&v, k + 1, n);
    proof {
        assert(s@.take(k as int) =~= v@.subrange(0, k as int));
        assert(s@.skip(k + 1) =~= v@.subrange(k + 1, n as int));
    }
    let a = parse_time(left.as_str());
    match a {
        Err(e) => Err(e),
        Ok(a) => match parse_time(right.as_str()) {
            Err(e) => Err(e),
            Ok(b) => Ok((a, b)),
        },
    }
}

/// What a typed date means, given today's day number: `today`,
/// `yesterday`, `tomorrow` (any case), a signed number of days from today,
/// or `YYYY-MM-DD`. The result is a day number, for a date in range.
pub open spec fn date_text(s: Seq<char>, today: int) -> Option<int> {
    let t = trim(s);
    let l = ascii_lower(t);
    if l == "today"@ {
        Some(today)
    } else if l == "yesterday"@ {
        if in_range(today - 1) {
            Some(today - 1)
        } else {
            None
        }
    } else if l == "tomorrow"@ {
        if in_range(today + 1) {
            Some(today + 1)
        } else {
            None
        }
    } else if i64_text(t) is Some {
        if in_range(today + i64_text(t)->0) {
            Some(today + i64_text(t)->0)
        } else {
            None
        }
    } else {
        match chrono_ymd_text(t) {
            Some(ymd) => Some(crate::date::num_of(ymd)),
            None => None,
        }
    }
}

/// The date typed in `s`, relative to `today` where it is relative.
pub fn parse_date(s: &str, today: Date) -> (r: Result<Date, CoreError>)
    ensures
        r is Ok <==> date_text(s@, today.num()) is Some,
        r matches Ok(d) ==> date_text(s@, today.num()) == Some(d.num()),
        r matches Err(e) ==> (e matches CoreError::InvalidDate(x) && x@ == s@),
{
    let t = crate::text::trimmed(s);
    let v = chars_of(t.as_str());
    proof {
        reveal_strlit("today");
        reveal_strlit("yesterday");
        reveal_strlit("tomorrow");
        assert("today"@ =~= ascii_lower("today"@));
        assert("yesterday"@ =~= ascii_lower("yesterday"@));
        assert("tomorrow"@ =~= ascii_lower("tomorrow"@));
    }
    if spells_lower(&v, "today") {
        return Ok(today);
    }
    if spells_lower(&v, "yesterday") {
        return match today.pred_opt() {
            Some(d) => Ok(d),
            None => Err(CoreError::InvalidDate(String::from_str(s))),
        };
    }
    if spells_lower(&v, "tomorrow") {
        return match today.succ_opt() {
            Some(d) => Ok(d),
            None => Err(CoreError::InvalidDate(String::from_str(s))),
        };
    }
    proof {
        assert(v@.subrange(0, v@.len() as int) =~= v@);
    }
    match parse_int(&v, 0, v.len()) {
        Some(off) => {
            let moved = if off >= 0 {
                today.checked_add_days(off as u64)
            } else {
                let back: u64 = if off == i64::MIN {
                    0x8000_0000_0000_0000
                } else {
                    (-off) as u64
                };
                today.checked_sub_days(back)
            };
            match moved {
                Some(d) => Ok(d),
                None => Err(CoreError::InvalidDate(String::from_str(s))),
            }
        },
        None => match Date::parse_ymd(t.as_str()) {
            Some(d) => Ok(d),
            None => Err(CoreError::InvalidDate(String::from_str(s))),
        },
    }
}

} // verus!
