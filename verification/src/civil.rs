//! Dates and times as a calendar and a clock show them, without a zone.

use vstd::prelude::*;
use crate::text::string_of;

verus! {

/// A day of the calendar.
#[derive(Debug, Clone, Copy, PartialEq, Eq, Structural)]
pub struct CivilDate {
    pub year: i32,
    pub month: u32,
    pub day: u32,
}

/// A time of day.
#[derive(Debug, Clone, Copy, PartialEq, Eq, Structural)]
pub struct TimeOfDay {
    pub hour: u32,
    pub minute: u32,
    pub second: u32,
    pub nanosecond: u32,
}

/// A day and a time of day.
#[derive(Debug, Clone, Copy, PartialEq, Eq, Structural)]
pub struct CivilDateTime {
    pub date: CivilDate,
    pub time: TimeOfDay,
}

impl TimeOfDay {
    /// `self` comes before `other` in the day.
    pub open spec fn earlier_than(self, other: TimeOfDay) -> bool {
        ||| self.hour < other.hour
        ||| self.hour == other.hour && self.minute < other.minute
        ||| self.hour == other.hour && self.minute == other.minute && self.second < other.second
        ||| self.hour == other.hour && self.minute == other.minute && self.second == other.second
            && self.nanosecond < other.nanosecond
    }

    /// Whether `self` comes before `other` in the day.
    pub fn is_earlier_than(&self, other: &TimeOfDay) -> (r: bool)
        ensures
            r == self.earlier_than(*other),
    {
        if self.hour != other.hour {
            self.hour < other.hour
        } else if self.minute != other.minute {
            self.minute < other.minute
        } else if self.second != other.second {
            self.second < other.second
        } else {
            self.nanosecond < other.nanosecond
        }
    }
}

/// The decimal digit for a number below ten.
pub open spec fn digit_char(d: int) -> char {
    (('0' as u8) + d) as char
}

/// The decimal digits of a natural number.
pub open spec fn digits_of(n: int) -> Seq<char>
    decreases n,
{
    if n < 10 {
        Seq::empty().push(digit_char(n))
    } else {
        digits_of(n / 10).push(digit_char(n % 10))
    }
}

/// A whole number written in decimal digits, behind a `-` if negative.
pub open spec fn decimal(n: int) -> Seq<char> {
    if n < 0 {
        Seq::empty().push('-') + digits_of(-n)
    } else {
        digits_of(n)
    }
}

fn push_digits(n: u64, out: &mut Vec<char>)
    ensures
        final(out)@ == old(out)@ + digits_of(n as int),
    decreases n,
{
    if n >= 10 {
        push_digits(n / 10, out);
    }
    let d: u8 = (n % 10) as u8;
    out.push((48u8 + d) as char);
    proof {
        assert('0' as u8 == 48u8);
        if n >= 10 {
            assert(out@ =~= old(out)@ + digits_of(n as int));
        } else {
            assert(out@ =~= old(out)@ + digits_of(n as int));
        }
    }
}

/// Writes a whole number in decimal digits at the end of `out`.
pub fn push_decimal(n: i64, out: &mut Vec<char>)
    ensures
        final(out)@ == old(out)@ + decimal(n as int),
{
    if n < 0 {
        out.push('-');
        let magnitude: u64 = if n == i64::MIN {
            9_223_372_036_854_775_808u64
        } else {
            (-n) as u64
        };
        push_digits(magnitude, out);
        assert(out@ =~= old(out)@ + decimal(n as int));
    } else {
        push_digits(n as u64, out);
    }
}

/// A day written as year, month and day in decimal digits, with `-`
/// between them.
pub open spec fn ymd_text(date: CivilDate) -> Seq<char> {
    decimal(date.year as int) + "-"@ + decimal(date.month as int) + "-"@ + decimal(date.day as int)
}

/// Writes a day as year, month and day, with `-` between them.
pub fn write_ymd(date: CivilDate) -> (r: Vec<char>)
    ensures
        r@ == ymd_text(date),
{
    proof {
        reveal_strlit("-");
    }
    let mut out: Vec<char> = Vec::new();
    push_decimal(date.year as i64, &mut out);
    out.push('-');
    push_decimal(date.month as i64, &mut out);
    out.push('-');
    push_decimal(date.day as i64, &mut out);
    assert(out@ =~= ymd_text(date)) by {
        assert("-"@ =~= Seq::<char>::empty().push('-'));
    }
    out
}

/// A whole number written in decimal digits.
pub fn decimal_text(n: i64) -> (r: String)
    ensures
        r@ == decimal(n as int),
{
    let mut out: Vec<char> = Vec::new();
    push_decimal(n, &mut out);
    string_of(&out)
}

impl CivilDate {
    /// The day written as year, month and day, with `-` between them.
    pub fn to_string(&self) -> (r: String)
        ensures
            r@ == ymd_text(*self),
    {
        string_of(&write_ymd(*self))
    }
}

} // verus!
