//! Signed durations in whole minutes, and how they are written.
use crate::error::CoreError;
use crate::text::{
    chars_of, decimal, i32_text, is_digit, lemma_decimal_reads_back, lemma_find_after_digits,
    lemma_find_char_from, pad2, parse_int, push_char, push_decimal,
    push_pad2, push_str, split_once,
};
use vstd::prelude::*;

verus! {

/// How durations are written: `+07:48` or `+7.80h`.
#[derive(Clone, Copy, Debug, PartialEq, Eq, Structural)]
pub enum HoursFormat {
    Hm,
    Decimal,
}

pub open spec fn hours_format_text(s: Seq<char>) -> Option<HoursFormat> {
    if s == "hm"@ {
        Some(HoursFormat::Hm)
    } else if s == "decimal"@ {
        Some(HoursFormat::Decimal)
    } else {
        None
    }
}

pub open spec fn hours_format_name(f: HoursFormat) -> Seq<char> {
    match f {
        HoursFormat::Hm => "hm"@,
        HoursFormat::Decimal => "decimal"@,
    }
}

impl HoursFormat {
    /// The spelling `hours_format` uses in `config.toml`.
    pub fn as_str(self) -> (r: &'static str)
        ensures
            r@ == hours_format_name(self),
            hours_format_text(r@) == Some(self),
    {
        proof {
            reveal_strlit("hm");
            reveal_strlit("decimal");
            assert("hm"@.len() != "decimal"@.len());
        }
        match self {
            HoursFormat::Hm => "hm",
            HoursFormat::Decimal => "decimal",
        }
    }

    /// `"hm"` or `"decimal"`; anything else is not a format.
    pub fn parse(s: &str) -> (r: Option<HoursFormat>)
        ensures
            r == hours_format_text(s@),
    {
        proof {
            reveal_strlit("hm");
            reveal_strlit("decimal");
        }
        let v = chars_of(s);
        if v.len() == 2 && v[0] == 'h' && v[1] == 'm' {
            proof {
                assert(s@ =~= "hm"@);
            }
            Some(HoursFormat::Hm)
        } else if v.len() == 7 && v[0] == 'd' && v[1] == 'e' && v[2] == 'c' && v[3] == 'i' && v[4]
            == 'm' && v[5] == 'a' && v[6] == 'l' {
            proof {
                assert(s@ =~= "decimal"@);
            }
            Some(HoursFormat::Decimal)
        } else {
            proof {
                if s@ == "hm"@ {
                    assert(s@[0] == 'h' && s@[1] == 'm');
                }
                if s@ == "decimal"@ {
                    assert(s@[0] == 'd' && s@[1] == 'e' && s@[2] == 'c' && s@[3] == 'i');
                    assert(s@[4] == 'm' && s@[5] == 'a' && s@[6] == 'l');
                }
            }
            None
        }
    }

    /// The other format: what `u` in the terminal UI flips to.
    pub fn toggled(self) -> (r: HoursFormat)
        ensures
            r != self,
    {
        match self {
            HoursFormat::Hm => HoursFormat::Decimal,
            HoursFormat::Decimal => HoursFormat::Hm,
        }
    }
}

/// `HH:MM` of `v` minutes, hours padded to two digits.
pub open spec fn hhmm_text(v: nat) -> Seq<char> {
    pad2(v / 60) + seq![':'] + pad2(v % 60)
}

/// `v` minutes as hours with two decimals and an `h`: hundredths rounded to
/// the nearest.
pub open spec fn decimal_hours_text(v: nat) -> Seq<char> {
    let hundredths = (5 * v + 1) / 3;
    decimal(hundredths / 100) + seq!['.'] + pad2(hundredths % 100) + seq!['h']
}

pub open spec fn unsigned_text(v: nat, f: HoursFormat) -> Seq<char> {
    match f {
        HoursFormat::Hm => hhmm_text(v),
        HoursFormat::Decimal => decimal_hours_text(v),
    }
}

pub open spec fn abs(v: int) -> int {
    if v < 0 {
        -v
    } else {
        v
    }
}

pub open spec fn signed_text(v: int, f: HoursFormat) -> Seq<char> {
    seq![if v < 0 { '-' } else { '+' }] + unsigned_text(abs(v) as nat, f)
}

/// What [`Minutes::parse`] reads: an optional sign, then `H:M` where both
/// parts read as integers, the minutes below 60 and the hours not negative.
pub open spec fn minutes_text(s: Seq<char>) -> Option<int> {
    let neg = s.len() > 0 && s[0] == '-';
    let body = if s.len() > 0 && (s[0] == '-' || s[0] == '+') {
        s.drop_first()
    } else {
        s
    };
    match split_once(body, ':') {
        None => None,
        Some(parts) => match (i32_text(parts.0), i32_text(parts.1)) {
            (Some(h), Some(m)) => if 0 <= m < 60 && h >= 0 && h * 60 + m <= i32::MAX {
                Some(if neg { -(h * 60 + m) } else { h * 60 + m })
            } else {
                None
            },
            _ => None,
        },
    }
}

/// A signed `±HH:MM` reads back as the minutes it was written from, for
/// every value but `i32::MIN`, whose magnitude has no `i32`.
pub proof fn signed_text_reads_back(v: int)
    requires
        -(i32::MAX as int) <= v <= i32::MAX,
    ensures
        minutes_text(signed_text(v, HoursFormat::Hm)) == Some(v),
{
    let a = abs(v) as nat;
    let h = a / 60;
    let m = a % 60;
    lemma_decimal_reads_back(h);
    lemma_decimal_reads_back(m);
    let s = signed_text(v, HoursFormat::Hm);
    let body = hhmm_text(a);
    assert(s.drop_first() =~= body);
    assert(body =~= pad2(h) + seq![':'] + pad2(m));
    lemma_find_after_digits(pad2(h), ':', pad2(m));
    let parts = split_once(body, ':').unwrap();
    assert(parts.0 =~= pad2(h));
    assert(parts.1 =~= pad2(m));
    assert(pad2(h)[0] != '+' && pad2(h)[0] != '-') by {
        assert(is_digit(pad2(h)[0]));
    }
    assert(pad2(m)[0] != '+' && pad2(m)[0] != '-') by {
        assert(is_digit(pad2(m)[0]));
    }
    assert(h * 60 + m == a);
}

/// A signed duration in whole minutes.
#[derive(Clone, Copy, Debug, Default, PartialEq, Eq, Structural, PartialOrd, Ord, Hash)]
pub struct Minutes(pub i32);

impl Minutes {
    pub fn hm(hours: i32, minutes: i32) -> (r: Minutes)
        requires
            i32::MIN <= hours * 60 <= i32::MAX,
            i32::MIN <= hours * 60 + minutes <= i32::MAX,
        ensures
            r.0 == hours * 60 + minutes,
    {
        Minutes(hours * 60 + minutes)
    }

    pub fn is_negative(self) -> (r: bool)
        ensures
            r == (self.0 < 0),
    {
        self.0 < 0
    }

    pub fn abs(self) -> (r: Minutes)
        requires
            self.0 != i32::MIN,
        ensures
            r.0 == abs(self.0 as int),
    {
        if self.0 < 0 {
            Minutes(-self.0)
        } else {
            self
        }
    }

    /// The magnitude as an unsigned number, which always fits.
    pub fn magnitude(self) -> (r: u64)
        ensures
            r == abs(self.0 as int),
    {
        if self.0 < 0 {
            (0 - (self.0 as i64)) as u64
        } else {
            self.0 as u64
        }
    }

    /// Unsigned `HH:MM`, used inside sentences.
    pub fn hhmm(self) -> (r: String)
        ensures
            r@ == hhmm_text(abs(self.0 as int) as nat),
    {
        let v = self.magnitude();
        let mut r = String::new();
        push_pad2(&mut r, v / 60);
        push_char(&mut r, ':');
        push_pad2(&mut r, v % 60);
        proof {
            assert(r@ =~= hhmm_text(abs(self.0 as int) as nat));
        }
        r
    }

    /// The magnitude in `f`: `07:48` or `7.80h`.
    pub fn fmt_unsigned(self, f: HoursFormat) -> (r: String)
        ensures
            r@ == unsigned_text(abs(self.0 as int) as nat, f),
    {
        match f {
            HoursFormat::Hm => self.hhmm(),
            HoursFormat::Decimal => {
                let v = self.magnitude();
                let h = (5 * v + 1) / 3;
                let mut r = String::new();
                push_decimal(&mut r, h / 100);
                push_char(&mut r, '.');
                push_pad2(&mut r, h % 100);
                push_char(&mut r, 'h');
                proof {
                    assert(r@ =~= decimal_hours_text(v as nat));
                }
                r
            },
        }
    }

    /// Sign and magnitude in `f`: `+07:48`, `-9.90h`.
    pub fn fmt_signed(self, f: HoursFormat) -> (r: String)
        ensures
            r@ == signed_text(self.0 as int, f),
    {
        let mut r = String::new();
        push_char(&mut r, if self.0 < 0 { '-' } else { '+' });
        let body = self.fmt_unsigned(f);
        push_str(&mut r, body.as_str());
        proof {
            assert(r@ =~= signed_text(self.0 as int, f));
        }
        r
    }

    /// `+HH:MM`: how a duration is displayed by default.
    pub fn to_string(&self) -> (r: String)
        ensures
            r@ == signed_text(self.0 as int, HoursFormat::Hm),
    {
        self.fmt_signed(HoursFormat::Hm)
    }

    /// Read `±H:MM` (the sign is optional).
    pub fn parse(s: &str) -> (r: Result<Minutes, CoreError>)
        ensures
            r matches Ok(m) ==> minutes_text(s@) == Some(m.0 as int),
            r matches Err(e) ==> minutes_text(s@) is None && (e matches CoreError::InvalidTime(t)
                && t@ == s@),
            r is Ok <==> minutes_text(s@) is Some,
    {
        let v = chars_of(s);
        let n = v.len();
        let neg = n > 0 && v[0] == '-';
        let start: usize = if n > 0 && (v[0] == '-' || v[0] == '+') {
            1
        } else {
            0
        };
        let ghost body = v@.subrange(start as int, n as int);
        proof {
            if start == 1 {
                assert(body =~= s@.drop_first());
            } else {
                assert(body =~= s@);
            }
        }
        let mut k = start;
        while k < n && v[k] != ':'
            invariant
                start <= k <= n == v.len(),
                forall|j: int| start <= j < k ==> v@[j] != ':',
            decreases n - k,
        {
            k += 1;
        }
        proof {
            assert forall|j: int| 0 <= j < k - start implies body[j] != ':' by {
                assert(body[j] == v@[start + j]);
            }
            lemma_find_char_from(body, ':', k - start);
        }
        if k == n {
            return Err(CoreError::InvalidTime(String::from_str(s)));
        }
        proof {
            assert(body.take(k - start) =~= v@.subrange(start as int, k as int));
            assert(body.skip(k - start + 1) =~= v@.subrange(k + 1, n as int));
        }
        let h = parse_int(&v, start, k);
        let m = parse_int(&v, k + 1, n);
        match (h, m) {
            (Some(h), Some(m)) => {
                if h < i32::MIN as i64 || h > i32::MAX as i64 || m < i32::MIN as i64 || m
                    > i32::MAX as i64 {
                    return Err(CoreError::InvalidTime(String::from_str(s)));
                }
                if m < 0 || m >= 60 || h < 0 || h > (i32::MAX as i64 - m) / 60 {
                    return Err(CoreError::InvalidTime(String::from_str(s)));
                }
                let total = (h * 60 + m) as i32;
                Ok(Minutes(if neg { -total } else { total }))
            },
            _ => Err(CoreError::InvalidTime(String::from_str(s))),
        }
    }
}

impl core::str::FromStr for Minutes {
    type Err = CoreError;

    /// The same reading as [`Minutes::parse`].
    fn from_str(s: &str) -> (r: Result<Minutes, CoreError>)
        ensures
            r matches Ok(m) ==> minutes_text(s@) == Some(m.0 as int),
            r matches Err(e) ==> minutes_text(s@) is None && (e matches CoreError::InvalidTime(t)
                && t@ == s@),
            r is Ok <==> minutes_text(s@) is Some,
    {
        Minutes::parse(s)
    }
}

impl core::ops::Add for Minutes {
    type Output = Minutes;

    fn add(self, rhs: Minutes) -> Minutes {
        Minutes(self.0 + rhs.0)
    }
}

impl vstd::std_specs::ops::AddSpecImpl for Minutes {
    open spec fn obeys_add_spec() -> bool {
        true
    }

    /// The sum must fit in `i32`.
    open spec fn add_req(self, rhs: Minutes) -> bool {
        i32::MIN <= self.0 + rhs.0 <= i32::MAX
    }

    open spec fn add_spec(self, rhs: Minutes) -> Minutes {
        Minutes((self.0 + rhs.0) as i32)
    }
}

impl core::ops::Sub for Minutes {
    type Output = Minutes;

    fn sub(self, rhs: Minutes) -> Minutes {
        Minutes(self.0 - rhs.0)
    }
}

impl vstd::std_specs::ops::SubSpecImpl for Minutes {
    open spec fn obeys_sub_spec() -> bool {
        true
    }

    /// The difference must fit in `i32`.
    open spec fn sub_req(self, rhs: Minutes) -> bool {
        i32::MIN <= self.0 - rhs.0 <= i32::MAX
    }

    open spec fn sub_spec(self, rhs: Minutes) -> Minutes {
        Minutes((self.0 - rhs.0) as i32)
    }
}

impl core::ops::Neg for Minutes {
    type Output = Minutes;

    fn neg(self) -> Minutes {
        Minutes(-self.0)
    }
}

impl vstd::std_specs::ops::NegSpecImpl for Minutes {
    open spec fn obeys_neg_spec() -> bool {
        true
    }

    /// `i32::MIN` has no negation in `i32`.
    open spec fn neg_req(self) -> bool {
        self.0 != i32::MIN
    }

    open spec fn neg_spec(self) -> Minutes {
        Minutes((-self.0) as i32)
    }
}

/// `a + b` brought back into the `i32` range by wrapping around.
pub open spec fn wrapped_sum(a: int, b: int) -> int {
    if a + b > i32::MAX {
        a + b - 0x1_0000_0000
    } else if a + b < i32::MIN {
        a + b + 0x1_0000_0000
    } else {
        a + b
    }
}

impl Minutes {
    /// The sum, wrapping around past the `i32` range: defined for every two
    /// values.
    pub fn plus_wrapping(self, rhs: Minutes) -> (r: Minutes)
        ensures
            r.0 == wrapped_sum(self.0 as int, rhs.0 as int),
    {
        Minutes(self.0.wrapping_add(rhs.0))
    }
}

impl core::ops::AddAssign for Minutes {
    /// A sum past the `i32` range wraps around.
    fn add_assign(&mut self, rhs: Minutes)
        ensures
            final(self).0 == wrapped_sum(old(self).0 as int, rhs.0 as int),
    {
        *self = self.plus_wrapping(rhs);
    }
}

impl core::iter::Sum for Minutes {
    /// `std::iter::Iterator::fold` over the items, from zero, each step
    /// [`Minutes::plus_wrapping`]: no sequence of items makes it panic.
    #[verifier::external_body]
    fn sum<I: Iterator<Item = Minutes>>(iter: I) -> Minutes {
        iter.fold(Minutes(0), |a, b| a.plus_wrapping(b))
    }
}

} // verus!
