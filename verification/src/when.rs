//! When a post is to be published, as its author writes it: a time for
//! people, where the year and the month may be left out.

use vstd::prelude::*;
use crate::civil::{write_ymd, ymd_text, CivilDate, CivilDateTime, TimeOfDay};
use crate::outside::{
    add_days, add_months, after_spaces, before_spaces, capped, date_plus_days, date_plus_months,
    follows_month, human_time_of, is_modest_request, is_relative_clock_unit, lower,
    month_ends_at, names_clock_unit, read_human_time, reads_word, reads_word_before,
    request_seconds, tally_before, unit_seconds, HumanTime, Number, Tally, LONG_YEAR,
    SECONDS_CAP, SHORT_YEAR,
};
use crate::text::{chars_of, string_of};

verus! {

/// A decimal digit.
pub open spec fn is_digit(c: char) -> bool {
    '0' <= c <= '9'
}

/// The number that a decimal digit stands for.
pub open spec fn digit_value(c: char) -> int {
    c as int - '0' as int
}

/// The number that one or two digits spell, the first of two being no
/// more than `high`.
pub open spec fn small_number(s: Seq<char>, high: char) -> Option<int> {
    if s.len() == 1 && is_digit(s[0]) {
        Some(digit_value(s[0]))
    } else if s.len() == 2 && '0' <= s[0] <= high && is_digit(s[1]) {
        Some(10 * digit_value(s[0]) + digit_value(s[1]))
    } else {
        None
    }
}

/// The day that a text names, if it is a day of the month and nothing
/// else: one digit, or two of which the first is at most `3`.
pub open spec fn day_number(s: Seq<char>) -> Option<int> {
    small_number(s, '3')
}

/// Index of the first `-` of `s`; the length of `s` if there is none.
pub open spec fn dash_index(s: Seq<char>, from: int) -> int
    decreases s.len() - from,
{
    if from < 0 || from >= s.len() {
        s.len() as int
    } else if s[from] == '-' {
        from
    } else {
        dash_index(s, from + 1)
    }
}

/// The month and the day that a text names, if it is a month and a day
/// with a `-` between them and nothing else; the first of two digits of a
/// month is at most `1`.
pub open spec fn month_and_day(s: Seq<char>) -> Option<(int, int)> {
    let dash = dash_index(s, 0);
    if dash >= s.len() {
        None
    } else {
        match (small_number(s.subrange(0, dash), '1'), small_number(s.subrange(dash + 1, s.len() as int), '3')) {
            (Some(month), Some(day)) => Some((month, day)),
            _ => None,
        }
    }
}

/// The next day of the month with the number `day`, counted from `now`:
/// in the month of `now` if the day is still to come, else a month later.
/// `None` where the calendar has no such day.
pub open spec fn next_day_numbered(day: int, now: CivilDate) -> Option<CivilDate> {
    if 0 <= day < now.day {
        date_plus_months(CivilDate { year: now.year, month: now.month, day: day as u32 }, 1)
    } else if now.day <= day <= 99 {
        date_plus_days(now, (day - now.day) as u64)
    } else {
        None
    }
}

/// The day that a month and a day name, counted from `now`: a month that
/// is past lies in the next year, and then the day is that of `now`.
/// `None` where the calendar has no such day.
pub open spec fn next_month_and_day(month: int, day: int, now: CivilDate) -> Option<CivilDate> {
    if !(1 <= now.month <= 12) || !(0 <= month <= 19) {
        None
    } else if month < now.month {
        date_plus_months(now, (12 - (now.month - month)) as u32)
    } else {
        match date_plus_months(now, (month - now.month) as u32) {
            Some(start) => next_day_numbered(day, start),
            None => None,
        }
    }
}

/// A time with the year and the month that it leaves out filled in: a day
/// of the month, or a month and a day, becomes year, month and day; any
/// other text stays as it is. `None` where the calendar has no such day.
pub open spec fn fixed_time(s: Seq<char>, now: CivilDate) -> Option<Seq<char>> {
    match day_number(s) {
        Some(day) => match next_day_numbered(day, now) {
            Some(date) => Some(ymd_text(date)),
            None => None,
        },
        None => match month_and_day(s) {
            Some((month, day)) => match next_month_and_day(month, day, now) {
                Some(date) => Some(ymd_text(date)),
                None => None,
            },
            None => Some(s),
        },
    }
}

fn read_small_number(s: &Vec<char>, from: usize, to: usize, high: char) -> (r: Option<u32>)
    requires
        from <= to <= s@.len(),
        high <= '9',
    ensures
        match r {
            Some(n) => small_number(s@.subrange(from as int, to as int), high) == Some(n as int)
                && n <= 99,
            None => small_number(s@.subrange(from as int, to as int), high) is None,
        },
{
    let ghost part = s@.subrange(from as int, to as int);
    if to - from == 1 {
        let c = s[from];
        assert(part[0] == c);
        if '0' <= c && c <= '9' {
            Some((c as u32) - ('0' as u32))
        } else {
            None
        }
    } else if to - from == 2 {
        let a = s[from];
        let b = s[from + 1];
        assert(part[0] == a && part[1] == b);
        if '0' <= a && a <= high && '0' <= b && b <= '9' {
            Some(10 * ((a as u32) - ('0' as u32)) + ((b as u32) - ('0' as u32)))
        } else {
            None
        }
    } else {
        None
    }
}

fn next_day(day: u32, now: CivilDate) -> (r: Option<CivilDate>)
    requires
        day <= 99,
    ensures
        r == next_day_numbered(day as int, now),
{
    if day < now.day {
        add_months(CivilDate { year: now.year, month: now.month, day }, 1)
    } else {
        add_days(now, (day - now.day) as u64)
    }
}

/// Fills in the year and the month that a time leaves out, counting from
/// the day `now`. `None` where the calendar has no such day.
pub fn fix_time(s: &str, now: CivilDate) -> (r: Option<String>)
    ensures
        match r {
            Some(text) => fixed_time(s@, now) == Some(text@),
            None => fixed_time(s@, now) is None,
        },
{
    let text = chars_of(s);
    assert(text@.subrange(0, text@.len() as int) =~= text@);
    match read_small_number(&text, 0, text.len(), '3') {
        Some(day) => {
            return match next_day(day, now) {
                Some(date) => Some(string_of(&write_ymd(date))),
                None => None,
            };
        },
        None => {},
    }
    let mut dash: usize = 0;
    while dash < text.len() && text[dash] != '-'
        invariant
            dash <= text@.len(),
            dash_index(text@, 0) == dash_index(text@, dash as int),
        decreases text@.len() - dash,
    {
        dash += 1;
    }
    if dash >= text.len() {
        return Some(s.to_owned());
    }
    let month = read_small_number(&text, 0, dash, '1');
    let day = read_small_number(&text, dash + 1, text.len(), '3');
    match (month, day) {
        (Some(month), Some(day)) => {
            if now.month < 1 || now.month > 12 || month > 19 {
                return None;
            }
            let date = if month < now.month {
                add_months(now, 12 - (now.month - month))
            } else {
                match add_months(now, month - now.month) {
                    Some(start) => next_day(day, start),
                    None => None,
                }
            };
            match date {
                Some(date) => Some(string_of(&write_ymd(date))),
                None => None,
            }
        },
        _ => Some(s.to_owned()),
    }
}

/// What kind of time a request named.
#[derive(Debug, Clone, Copy, PartialEq, Eq, Structural)]
pub enum TimeKind {
    /// A day and a time.
    DateTime,
    /// A day: the time is the default time.
    Date,
    /// A time: the day is the day of the request, or the next one.
    Time,
}

/// When a post is to be published, as calendar and clock show it where the
/// request is made.
#[derive(Debug, Clone, Copy, PartialEq, Eq, Structural)]
pub struct ParsedTime {
    pub local: CivilDateTime,
    pub kind: TimeKind,
}

/// Why a request names no time.
#[derive(Debug, Clone, Copy, PartialEq, Eq, Structural)]
pub enum TimeError {
    /// The request is one that is not read: it names a relative hour,
    /// minute or second, or leads further than the calendar reaches.
    Unsupported,
    /// The calendar has no day for the year and month to fill in.
    NoSuchDay,
    /// The request is not understood.
    Unparsable,
    /// The day after the day of the request is out of range.
    OutOfRange,
}

/// The time of publication that a parsed request stands for.
///
/// A day and a time stand for themselves. A day stands for that day at
/// the default time, taken to the second. A time stands for that time on
/// the day of the request, or on the next day if it has passed.
pub open spec fn scheduled_for(
    parsed: HumanTime,
    ref_date: CivilDateTime,
    default_time: TimeOfDay,
) -> Result<ParsedTime, TimeError> {
    match (parsed.date, parsed.time) {
        (Some(date), Some(time)) => Ok(
            ParsedTime { local: CivilDateTime { date, time }, kind: TimeKind::DateTime },
        ),
        (Some(date), None) => Ok(
            ParsedTime {
                local: CivilDateTime {
                    date,
                    time: TimeOfDay {
                        hour: default_time.hour,
                        minute: default_time.minute,
                        second: default_time.second,
                        nanosecond: 0,
                    },
                },
                kind: TimeKind::Date,
            },
        ),
        (None, Some(time)) => if time.earlier_than(ref_date.time) {
            match date_plus_days(ref_date.date, 1) {
                Some(date) => Ok(
                    ParsedTime { local: CivilDateTime { date, time }, kind: TimeKind::Time },
                ),
                None => Err(TimeError::OutOfRange),
            }
        } else {
            Ok(ParsedTime { local: CivilDateTime { date: ref_date.date, time }, kind: TimeKind::Time })
        },
        (None, None) => Err(TimeError::Unparsable),
    }
}

/// The time of publication that a parsed request stands for.
pub fn schedule_for(parsed: HumanTime, ref_date: CivilDateTime, default_time: &TimeOfDay) -> (r:
    Result<ParsedTime, TimeError>)
    ensures
        r == scheduled_for(parsed, ref_date, *default_time),
{
    match (parsed.date, parsed.time) {
        (Some(date), Some(time)) => Ok(
            ParsedTime { local: CivilDateTime { date, time }, kind: TimeKind::DateTime },
        ),
        (Some(date), None) => Ok(
            ParsedTime {
                local: CivilDateTime {
                    date,
                    time: TimeOfDay {
                        hour: default_time.hour,
                        minute: default_time.minute,
                        second: default_time.second,
                        nanosecond: 0,
                    },
                },
                kind: TimeKind::Date,
            },
        ),
        (None, Some(time)) => {
            if time.is_earlier_than(&ref_date.time) {
                match add_days(ref_date.date, 1) {
                    Some(date) => Ok(
                        ParsedTime { local: CivilDateTime { date, time }, kind: TimeKind::Time },
                    ),
                    None => Err(TimeError::OutOfRange),
                }
            } else {
                Ok(
                    ParsedTime {
                        local: CivilDateTime { date: ref_date.date, time },
                        kind: TimeKind::Time,
                    },
                )
            }
        },
        (None, None) => Err(TimeError::Unparsable),
    }
}

fn to_lower(c: char) -> (r: char)
    ensures
        r == lower(c),
{
    if 'A' <= c && c <= 'Z' {
        ((c as u8) + 32) as char
    } else {
        c
    }
}

fn reads_word_at(text: &Vec<char>, at: usize, word: &Vec<char>) -> (r: bool)
    ensures
        r == reads_word(text@, at as int, word@),
{
    if at > text.len() || word.len() > text.len() - at {
        return false;
    }
    let mut k: usize = 0;
    while k < word.len()
        invariant
            at + word@.len() <= text@.len() <= usize::MAX,
            k <= word@.len(),
            forall|j: int| 0 <= j < k ==> lower(#[trigger] text@[at + j]) == word@[j],
        decreases word@.len() - k,
    {
        if to_lower(text[at + k]) != word[k] {
            return false;
        }
        k += 1;
    }
    true
}

fn names_clock_unit_at(text: &Vec<char>, at: usize) -> (r: bool)
    ensures
        r == names_clock_unit(text@, at as int),
{
    if at >= text.len() {
        return false;
    }
    let c = to_lower(text[at]);
    if c == 'h' {
        true
    } else if c == 'm' {
        !reads_word_at(text, at, &vec!['m', 'o', 'n'])
    } else if c == 's' {
        !reads_word_at(text, at, &vec!['s', 'a', 't']) && !reads_word_at(
            text,
            at,
            &vec!['s', 'u', 'n'],
        )
    } else {
        false
    }
}

fn is_relative_clock_unit_at(text: &Vec<char>, at: usize) -> (r: bool)
    requires
        at < text@.len(),
    ensures
        r == is_relative_clock_unit(text@, at as int),
{
    if !(reads_word_at(text, at, &vec!['t', 'h', 'i', 's']) || reads_word_at(
        text,
        at,
        &vec!['n', 'e', 'x', 't'],
    ) || reads_word_at(text, at, &vec!['l', 'a', 's', 't'])) {
        return false;
    }
    let length = text.len();
    assert(at + 4 <= length);
    let mut unit: usize = at + 4;
    while unit < text.len() && text[unit] == ' '
        invariant
            at + 4 <= unit <= text@.len(),
            after_spaces(text@, at + 4) == after_spaces(text@, unit as int),
        decreases text@.len() - unit,
    {
        unit += 1;
    }
    names_clock_unit_at(text, unit)
}

fn unit_weight(c: char) -> (r: u128)
    ensures
        r == unit_seconds(c),
        1 <= r <= LONG_YEAR,
{
    let l = to_lower(c);
    if l == 's' {
        1
    } else if l == 'h' {
        3_600
    } else if l == 'd' {
        86_400
    } else if l == 'w' {
        604_800
    } else if l == 'm' {
        2_678_400
    } else {
        LONG_YEAR
    }
}

fn cap(seconds: u128) -> (r: u128)
    ensures
        r == capped(seconds as int),
        r <= SECONDS_CAP,
{
    if seconds > SECONDS_CAP {
        SECONDS_CAP
    } else {
        seconds
    }
}

fn reads_before(text: &Vec<char>, end: usize, word: &Vec<char>) -> (r: bool)
    requires
        end <= text@.len(),
    ensures
        r == reads_word_before(text@, end as int, word@),
{
    if word.len() > end {
        false
    } else {
        reads_word_at(text, end - word.len(), word)
    }
}

fn month_ends(text: &Vec<char>, end: usize) -> (r: bool)
    requires
        end <= text@.len(),
    ensures
        r == month_ends_at(text@, end as int),
{
    reads_before(text, end, &vec!['j', 'a', 'n']) || reads_before(text, end, &vec!['f', 'e', 'b'])
        || reads_before(text, end, &vec!['m', 'a', 'r']) || reads_before(
        text,
        end,
        &vec!['a', 'p', 'r'],
    ) || reads_before(text, end, &vec!['m', 'a', 'y']) || reads_before(
        text,
        end,
        &vec!['j', 'u', 'n'],
    ) || reads_before(text, end, &vec!['j', 'u', 'l']) || reads_before(
        text,
        end,
        &vec!['a', 'u', 'g'],
    ) || reads_before(text, end, &vec!['s', 'e', 'p']) || reads_before(
        text,
        end,
        &vec!['o', 'c', 't'],
    ) || reads_before(text, end, &vec!['n', 'o', 'v']) || reads_before(
        text,
        end,
        &vec!['d', 'e', 'c'],
    ) || reads_before(text, end, &vec!['j', 'a', 'n', 'u', 'a', 'r', 'y']) || reads_before(
        text,
        end,
        &vec!['f', 'e', 'b', 'r', 'u', 'a', 'r', 'y'],
    ) || reads_before(text, end, &vec!['m', 'a', 'r', 'c', 'h']) || reads_before(
        text,
        end,
        &vec!['a', 'p', 'r', 'i', 'l'],
    ) || reads_before(text, end, &vec!['j', 'u', 'n', 'e']) || reads_before(
        text,
        end,
        &vec!['j', 'u', 'l', 'y'],
    ) || reads_before(text, end, &vec!['a', 'u', 'g', 'u', 's', 't']) || reads_before(
        text,
        end,
        &vec!['s', 'e', 'p', 't', 'e', 'm', 'b', 'e', 'r'],
    ) || reads_before(text, end, &vec!['o', 'c', 't', 'o', 'b', 'e', 'r']) || reads_before(
        text,
        end,
        &vec!['n', 'o', 'v', 'e', 'm', 'b', 'e', 'r'],
    ) || reads_before(text, end, &vec!['d', 'e', 'c', 'e', 'm', 'b', 'e', 'r'])
}

fn number_follows_month(text: &Vec<char>, at: usize) -> (r: bool)
    requires
        at <= text@.len(),
    ensures
        r == follows_month(text@, at as int),
{
    let mut end: usize = at;
    while end > 0 && text[end - 1] == ' '
        invariant
            end <= at <= text@.len(),
            before_spaces(text@, at as int) == before_spaces(text@, end as int),
        decreases end,
    {
        end -= 1;
    }
    month_ends(text, end)
}

/// A number being counted.
struct Counted {
    value: u128,
    as_years: bool,
}

impl Counted {
    spec fn number(self) -> Number {
        Number { value: self.value as int, as_years: self.as_years }
    }
}

spec fn counted_number(counted: Option<Counted>) -> Option<Number> {
    match counted {
        Some(c) => Some(c.number()),
        None => None,
    }
}

/// The seconds that the numbers of a request can stand for at most.
fn count_seconds(text: &Vec<char>) -> (r: u128)
    ensures
        r == request_seconds(text@),
        r <= SECONDS_CAP,
{
    let mut seconds: u128 = 0;
    let mut reading: Option<Counted> = None;
    let mut waiting: Option<Counted> = None;
    let mut i: usize = 0;
    while i < text.len()
        invariant
            i <= text@.len(),
            seconds <= SECONDS_CAP,
            reading matches Some(n) ==> n.value <= SECONDS_CAP,
            waiting matches Some(n) ==> n.value <= SECONDS_CAP,
            tally_before(text@, i as int) == (Tally {
                seconds: seconds as int,
                reading: counted_number(reading),
                waiting: counted_number(waiting),
            }),
        decreases text@.len() - i,
    {
        let c = text[i];
        if '0' <= c && c <= '9' {
            let digit: u128 = ((c as u32) - ('0' as u32)) as u128;
            if let Some(number) = waiting {
                seconds = cap(seconds + number.value * LONG_YEAR);
            }
            reading = Some(
                match reading {
                    Some(number) => Counted {
                        value: cap(number.value * 10 + digit),
                        as_years: number.as_years,
                    },
                    None => Counted { value: digit, as_years: number_follows_month(text, i) },
                },
            );
            waiting = None;
        } else {
            if let Some(number) = reading {
                waiting = Some(number);
            }
            reading = None;
            if c != ' ' {
                if let Some(number) = waiting {
                    let weight = if number.as_years {
                        LONG_YEAR
                    } else {
                        unit_weight(c)
                    };
                    assert(number.value * weight <= SECONDS_CAP * LONG_YEAR) by (nonlinear_arith)
                        requires
                            number.value <= SECONDS_CAP,
                            weight <= LONG_YEAR,
                    ;
                    seconds = cap(seconds + number.value * weight);
                    waiting = None;
                }
            }
        }
        i += 1;
    }
    match (reading, waiting) {
        (Some(number), _) => cap(seconds + number.value * LONG_YEAR),
        (None, Some(number)) => cap(seconds + number.value * LONG_YEAR),
        (None, None) => seconds,
    }
}

/// Whether a request made at `now` is one that is read: one without a
/// relative hour, minute or second, whose numbers lead no further from
/// `now` than the calendar reaches.
pub fn is_modest(text: &str, now: CivilDateTime) -> (r: bool)
    ensures
        r == is_modest_request(text@, now),
{
    let chars = chars_of(text);
    let seconds = count_seconds(&chars);
    if chars.len() > 100_000 {
        return false;
    }
    let mut at: usize = 0;
    while at < chars.len()
        invariant
            at <= chars@.len(),
            chars@ == text@,
            forall|k: int| 0 <= k < at ==> !is_relative_clock_unit(chars@, k),
        decreases chars@.len() - at,
    {
        if is_relative_clock_unit_at(&chars, at) {
            return false;
        }
        at += 1;
    }
    let years: u128 = seconds / SHORT_YEAR + 1 + 3 * (chars.len() as u128);
    let year: i128 = now.date.year as i128;
    year + (years as i128) <= 262_000 && year - (years as i128) >= -262_000
}

/// The time of publication that the request `time_str` names, made at
/// `ref_date` as calendar and clock show it there.
pub open spec fn parsed_time(
    time_str: Seq<char>,
    ref_date: CivilDateTime,
    default_time: TimeOfDay,
) -> Result<ParsedTime, TimeError> {
    match fixed_time(time_str, ref_date.date) {
        None => Err(TimeError::NoSuchDay),
        Some(fixed) => if !is_modest_request(fixed, ref_date) {
            Err(TimeError::Unsupported)
        } else {
            match human_time_of(fixed, ref_date) {
                None => Err(TimeError::Unparsable),
                Some(parsed) => scheduled_for(parsed, ref_date, default_time),
            }
        },
    }
}

/// Reads when a post is to be published from the request `time_str`, made
/// at `ref_date`.
pub fn parse_time_with_ref(time_str: &str, ref_date: CivilDateTime, default_time: &TimeOfDay) -> (r:
    Result<ParsedTime, TimeError>)
    ensures
        r == parsed_time(time_str@, ref_date, *default_time),
{
    let fixed = match fix_time(time_str, ref_date.date) {
        Some(fixed) => fixed,
        None => {
            return Err(TimeError::NoSuchDay);
        },
    };
    if !is_modest(fixed.as_str(), ref_date) {
        return Err(TimeError::Unsupported);
    }
    match read_human_time(fixed.as_str(), ref_date.date, ref_date.time) {
        None => Err(TimeError::Unparsable),
        Some((day, clock)) => {
            let date = match day {
                Some((year, month, day)) => Some(CivilDate { year, month, day }),
                None => None,
            };
            let time = match clock {
                Some((hour, minute, second, nanosecond)) => Some(
                    TimeOfDay { hour, minute, second, nanosecond },
                ),
                None => None,
            };
            schedule_for(HumanTime { date, time }, ref_date, default_time)
        },
    }
}

} // verus!
