//! Quote ranges and sampling intervals, with their wire strings.
//!
//! A market-data provider names time ranges and intervals by short strings
//! such as `5y` or `15m`. These enums convert to and from those strings and
//! say which intervals a range admits.

use vstd::prelude::*;

verus! {

use vstd::string::StrSliceExecFns;

/// A span of history to request.
#[derive(Debug, Clone, Copy, PartialEq, Eq, Structural)]
pub enum Range {
    Day1,
    Month1,
    Month3,
    Month6,
    Year1,
    Year2,
    Year5,
    Year10,
    YearToDate,
    Max,
}

/// The sampling interval of the quotes within a range.
#[derive(Debug, Clone, Copy, PartialEq, Eq, Structural)]
pub enum Interval {
    Minute1,
    Minute2,
    Minute3,
    Minute5,
    Minute15,
    Minute30,
    Minute90,
    Hour1,
    Day1,
    Day5,
    Week1,
    Month1,
    Month3,
}

/// A period string was rejected.
#[derive(Debug, Clone, PartialEq, Eq)]
pub enum PeriodError {
    /// The interval is not offered for the range.
    InvalidInterval,
    /// The string names no known range.
    UnknownRange(String),
    /// The string names no known interval.
    UnknownInterval(String),
}

/// The wire string of a range.
pub open spec fn range_str(r: Range) -> Seq<char> {
    match r {
        Range::Day1 => "1d"@,
        Range::Month1 => "1mo"@,
        Range::Month3 => "3mo"@,
        Range::Month6 => "6mo"@,
        Range::Year1 => "1y"@,
        Range::Year2 => "2y"@,
        Range::Year5 => "5y"@,
        Range::Year10 => "10y"@,
        Range::YearToDate => "ytd"@,
        Range::Max => "max"@,
    }
}

/// The wire string of an interval.
pub open spec fn interval_str(i: Interval) -> Seq<char> {
    match i {
        Interval::Minute1 => "1m"@,
        Interval::Minute2 => "2m"@,
        Interval::Minute3 => "3m"@,
        Interval::Minute5 => "5m"@,
        Interval::Minute15 => "15m"@,
        Interval::Minute30 => "30m"@,
        Interval::Minute90 => "90m"@,
        Interval::Hour1 => "1h"@,
        Interval::Day1 => "1d"@,
        Interval::Day5 => "5d"@,
        Interval::Week1 => "1wk"@,
        Interval::Month1 => "1mo"@,
        Interval::Month3 => "3mo"@,
    }
}

/// The intervals a range admits.
pub open spec fn valid_intervals_of(r: Range) -> Seq<Interval> {
    match r {
        Range::Day1 => seq![
            Interval::Minute1,
            Interval::Minute2,
            Interval::Minute5,
            Interval::Minute15,
            Interval::Minute30,
            Interval::Minute90,
            Interval::Hour1,
            Interval::Day1,
            Interval::Day5,
            Interval::Week1,
            Interval::Month1,
            Interval::Month3,
        ],
        Range::Month1 => seq![
            Interval::Minute2,
            Interval::Minute3,
            Interval::Minute5,
            Interval::Minute15,
            Interval::Minute30,
            Interval::Minute90,
            Interval::Hour1,
            Interval::Day1,
            Interval::Day5,
            Interval::Week1,
            Interval::Month1,
            Interval::Month3,
        ],
        _ => seq![
            Interval::Hour1,
            Interval::Day1,
            Interval::Week1,
            Interval::Month1,
            Interval::Month3,
        ],
    }
}

/// Character-for-character string equality.
fn str_eq_exec(a: &str, b: &str) -> (r: bool)
    ensures
        r <==> a@ == b@,
{
    let la = a.unicode_len();
    let lb = b.unicode_len();
    if la != lb {
        return false;
    }
    let mut i: usize = 0;
    while i < la
        invariant
            la as nat == a@.len(),
            lb as nat == b@.len(),
            la == lb,
            0 <= i <= la,
            forall|k: int| 0 <= k < i ==> a@[k] == b@[k],
        decreases la - i,
    {
        let ca = a.get_char(i);
        let cb = b.get_char(i);
        if ca != cb {
            return false;
        }
        i += 1;
    }
    proof {
        assert(a@ =~= b@);
    }
    true
}

impl Range {
    /// The wire string of this range.
    pub fn as_str(&self) -> (s: &'static str)
        ensures
            s@ == range_str(*self),
    {
        match self {
            Self::Day1 => "1d",
            Self::Month1 => "1mo",
            Self::Month3 => "3mo",
            Self::Month6 => "6mo",
            Self::Year1 => "1y",
            Self::Year2 => "2y",
            Self::Year5 => "5y",
            Self::Year10 => "10y",
            Self::YearToDate => "ytd",
            Self::Max => "max",
        }
    }

    /// The intervals this range admits.
    pub fn valid_intervals(&self) -> (r: Vec<Interval>)
        ensures
            r@ == valid_intervals_of(*self),
    {
        let mut v: Vec<Interval> = Vec::new();
        match self {
            Self::Day1 => {
                v.push(Interval::Minute1);
                v.push(Interval::Minute2);
                v.push(Interval::Minute5);
                v.push(Interval::Minute15);
                v.push(Interval::Minute30);
                v.push(Interval::Minute90);
                v.push(Interval::Hour1);
                v.push(Interval::Day1);
                v.push(Interval::Day5);
                v.push(Interval::Week1);
                v.push(Interval::Month1);
                v.push(Interval::Month3);
            },
            Self::Month1 => {
                v.push(Interval::Minute2);
                v.push(Interval::Minute3);
                v.push(Interval::Minute5);
                v.push(Interval::Minute15);
                v.push(Interval::Minute30);
                v.push(Interval::Minute90);
                v.push(Interval::Hour1);
                v.push(Interval::Day1);
                v.push(Interval::Day5);
                v.push(Interval::Week1);
                v.push(Interval::Month1);
                v.push(Interval::Month3);
            },
            _ => {
                v.push(Interval::Hour1);
                v.push(Interval::Day1);
                v.push(Interval::Week1);
                v.push(Interval::Month1);
                v.push(Interval::Month3);
            },
        }
        proof {
            assert(v@ =~= valid_intervals_of(*self));
        }
        v
    }

    /// Parse a wire string; unknown strings are reported back verbatim.
    pub fn from_str(s: &str) -> (r: Result<Self, PeriodError>)
        ensures
            r matches Ok(v) ==> s@ == range_str(v),
            r matches Err(e) ==> (e matches PeriodError::UnknownRange(t) && t@ == s@
                && forall|v: Range| s@ != range_str(v)),
    {
        if str_eq_exec(s, "1d") {
            Ok(Self::Day1)
        } else if str_eq_exec(s, "1mo") {
            Ok(Self::Month1)
        } else if str_eq_exec(s, "3mo") {
            Ok(Self::Month3)
        } else if str_eq_exec(s, "6mo") {
            Ok(Self::Month6)
        } else if str_eq_exec(s, "1y") {
            Ok(Self::Year1)
        } else if str_eq_exec(s, "2y") {
            Ok(Self::Year2)
        } else if str_eq_exec(s, "5y") {
            Ok(Self::Year5)
        } else if str_eq_exec(s, "10y") {
            Ok(Self::Year10)
        } else if str_eq_exec(s, "ytd") {
            Ok(Self::YearToDate)
        } else if str_eq_exec(s, "max") {
            Ok(Self::Max)
        } else {
            Err(PeriodError::UnknownRange(s.to_owned()))
        }
    }

    /// Whether the interval is offered for this range.
    pub fn is_valid_interval(&self, interval: Interval) -> (r: bool)
        ensures
            r <==> valid_intervals_of(*self).contains(interval),
    {
        let v = self.valid_intervals();
        let n = v.len();
        let mut i: usize = 0;
        while i < n
            invariant
                n == v@.len(),
                v@ == valid_intervals_of(*self),
                0 <= i <= n,
                forall|k: int| 0 <= k < i ==> v@[k] != interval,
            decreases n - i,
        {
            if v[i] == interval {
                return true;
            }
            i += 1;
        }
        false
    }
}

impl Interval {
    /// The wire string of this interval.
    pub fn as_str(&self) -> (s: &'static str)
        ensures
            s@ == interval_str(*self),
    {
        match self {
            Self::Minute1 => "1m",
            Self::Minute2 => "2m",
            Self::Minute3 => "3m",
            Self::Minute5 => "5m",
            Self::Minute15 => "15m",
            Self::Minute30 => "30m",
            Self::Minute90 => "90m",
            Self::Hour1 => "1h",
            Self::Day1 => "1d",
            Self::Day5 => "5d",
            Self::Week1 => "1wk",
            Self::Month1 => "1mo",
            Self::Month3 => "3mo",
        }
    }

    /// Parse a wire string; unknown strings are reported back verbatim.
    pub fn from_str(s: &str) -> (r: Result<Self, PeriodError>)
        ensures
            r matches Ok(v) ==> s@ == interval_str(v),
            r matches Err(e) ==> (e matches PeriodError::UnknownInterval(t) && t@ == s@
                && forall|v: Interval| s@ != interval_str(v)),
    {
        if str_eq_exec(s, "1m") {
            Ok(Self::Minute1)
        } else if str_eq_exec(s, "2m") {
            Ok(Self::Minute2)
        } else if str_eq_exec(s, "3m") {
            Ok(Self::Minute3)
        } else if str_eq_exec(s, "5m") {
            Ok(Self::Minute5)
        } else if str_eq_exec(s, "15m") {
            Ok(Self::Minute15)
        } else if str_eq_exec(s, "30m") {
            Ok(Self::Minute30)
        } else if str_eq_exec(s, "90m") {
            Ok(Self::Minute90)
        } else if str_eq_exec(s, "1h") {
            Ok(Self::Hour1)
        } else if str_eq_exec(s, "1d") {
            Ok(Self::Day1)
        } else if str_eq_exec(s, "5d") {
            Ok(Self::Day5)
        } else if str_eq_exec(s, "1wk") {
            Ok(Self::Week1)
        } else if str_eq_exec(s, "1mo") {
            Ok(Self::Month1)
        } else if str_eq_exec(s, "3mo") {
            Ok(Self::Month3)
        } else {
            Err(PeriodError::UnknownInterval(s.to_owned()))
        }
    }
}

} // verus!
