//! What this crate takes on trust from the crates it calls, and from the
//! standard library where its behaviour is not yet specified.
//!
//! Each item here states, without proof, what an outside function returns.
//! Where the result is stated by name only, the name stands for whatever
//! the outside function computes from the same arguments. What a path
//! means is settled by the platform the crate is built for: the results of
//! the functions of paths go by name for that reason.

use chrono::{Datelike, NaiveDate, TimeZone, Timelike};
use human_date_parser::ParseResult;
use std::fmt::Write;
use vstd::prelude::*;
use crate::civil::{CivilDate, CivilDateTime, TimeOfDay};

verus! {

/// `String::push`: the character is appended to the end of the string.
pub assume_specification[ String::push ](s: &mut String, c: char)
    ensures
        final(s)@ == old(s)@.push(c),
;

/// The slug that `slug::slugify` makes of a text.
pub uninterp spec fn slug_of(text: Seq<char>) -> Seq<char>;

/// A slug is written in `a` to `z`, `0` to `9` and `-`, neither begins nor
/// ends with `-`, and holds no two `-` in a row.
pub open spec fn is_slug(s: Seq<char>) -> bool {
    &&& forall|i: int|
        0 <= i < s.len() ==> ('a' <= #[trigger] s[i] <= 'z') || ('0' <= s[i] <= '9') || s[i] == '-'
    &&& s.len() > 0 ==> s[0] != '-' && s[s.len() - 1] != '-'
    &&& forall|i: int| 0 <= i < s.len() - 1 ==> !(#[trigger] s[i] == '-' && s[i + 1] == '-')
}

/// `slug::slugify`: the slug of `text`. Its documentation promises the
/// shape that `is_slug` states; which slug it is goes by name.
#[verifier::external_body]
pub(crate) fn slugify(text: &str) -> (r: String)
    ensures
        r@ == slug_of(text@),
        is_slug(r@),
{
    slug::slugify(text)
}

/// The list of strings that a TOML document holds under a key, as
/// `toml::from_str` reads the document and `toml::Value::try_into` the
/// value; `None` where the text is no TOML document, the key is absent, or
/// its value is no list of strings.
pub uninterp spec fn toml_string_list(document: Seq<char>, key: Seq<char>) -> Option<Seq<Seq<char>>>;

/// `toml::from_str` into a `toml::Table`, then `toml::Value::try_into` on
/// the value under `key`: the list of strings found there, by name.
#[verifier::external_body]
pub(crate) fn read_toml_string_list(document: &str, key: &str) -> (r: Option<Vec<String>>)
    ensures
        match r {
            Some(list) => toml_string_list(document@, key@) == Some(
                Seq::new(list@.len(), |i: int| list@[i]@),
            ),
            None => toml_string_list(document@, key@) is None,
        },
{
    let mut table: toml::Table = toml::from_str(document).ok()?;
    table.remove(key)?.try_into().ok()
}

/// The stem of the file name of a path, as `std::path::Path::file_stem`
/// reads the path on the platform the crate is built for; `None` where the
/// path has no file name.
pub uninterp spec fn path_stem_of(path: Seq<char>) -> Option<Seq<char>>;

/// `std::path::Path::file_stem`: the stem of the file name of `path`, by
/// name.
#[verifier::external_body]
pub(crate) fn path_file_stem(path: &str) -> (r: Option<String>)
    ensures
        match r {
            Some(stem) => path_stem_of(path@) == Some(stem@),
            None => path_stem_of(path@) is None,
        },
{
    std::path::Path::new(path).file_stem().map(|stem| stem.to_string_lossy().into_owned())
}

/// A path with its file name replaced by another, as
/// `std::path::Path::with_file_name` makes it on the platform the crate is
/// built for.
pub uninterp spec fn path_renamed(path: Seq<char>, name: Seq<char>) -> Seq<char>;

/// `std::path::Path::with_file_name`: `path` with its file name replaced by
/// `name`, by name.
#[verifier::external_body]
pub(crate) fn path_with_file_name(path: &str, name: &str) -> (r: String)
    ensures
        r@ == path_renamed(path@, name@),
{
    std::path::Path::new(path).with_file_name(name).to_string_lossy().into_owned()
}

/// Whether a path lies under another: whether `base` is a prefix of `path`,
/// taken component by component, as `std::path::Path::starts_with` tells
/// on the platform the crate is built for.
pub uninterp spec fn path_is_under(path: Seq<char>, base: Seq<char>) -> bool;

/// `std::path::Path::starts_with`: whether `path` lies under `base`, by
/// name.
#[verifier::external_body]
pub(crate) fn path_starts_with(path: &str, base: &str) -> (r: bool)
    ensures
        r == path_is_under(path@, base@),
{
    std::path::Path::new(path).starts_with(base)
}

/// A stretch of a text that a capture group has matched: its byte offsets
/// in the text, and what it reads.
pub struct Span {
    pub start: usize,
    pub end: usize,
    pub text: String,
}

/// A span, with its text as a character sequence.
pub struct SpanView {
    pub start: int,
    pub end: int,
    pub text: Seq<char>,
}

impl View for Span {
    type V = SpanView;

    open spec fn view(&self) -> SpanView {
        SpanView { start: self.start as int, end: self.end as int, text: self.text@ }
    }
}

/// The groups of one match, by number; a group that took no part is `None`.
pub open spec fn groups_view(groups: Seq<Option<Span>>) -> Seq<Option<SpanView>> {
    Seq::new(
        groups.len(),
        |j: int|
            match groups[j] {
                Some(span) => Some(span@),
                None => None,
            },
    )
}

/// The matches, each with the views of its groups.
pub open spec fn matches_view(found: Seq<Vec<Option<Span>>>) -> Seq<Seq<Option<SpanView>>> {
    Seq::new(found.len(), |i: int| groups_view(found[i]@))
}

/// The matches of a regular expression in a text, from left to right and
/// without overlap, each with its capture groups, as the `regex` crate
/// finds them; `None` where the pattern is no regular expression.
pub uninterp spec fn regex_matches(pattern: Seq<char>, text: Seq<char>) -> Option<
    Seq<Seq<Option<SpanView>>>,
>;

/// `regex::Regex::new`, then `regex::Regex::captures_iter` on `text`: the
/// matches, by name.
#[verifier::external_body]
pub(crate) fn find_matches(pattern: &str, text: &str) -> (r: Option<Vec<Vec<Option<Span>>>>)
    ensures
        match r {
            Some(found) => regex_matches(pattern@, text@) == Some(matches_view(found@)),
            None => regex_matches(pattern@, text@) is None,
        },
{
    let re = regex::Regex::new(pattern).ok()?;
    Some(
        re.captures_iter(text).map(
            |c|
                c.iter().map(
                    |g|
                        g.map(
                            |m| Span { start: m.start(), end: m.end(), text: m.as_str().to_owned() },
                        ),
                ).collect(),
        ).collect(),
    )
}

/// The text of the URL that `reqwest::Url::parse` reads from a text;
/// `None` where it reads none.
pub uninterp spec fn url_of(text: Seq<char>) -> Option<Seq<char>>;

/// `reqwest::Url::parse`: the URL that `text` spells, as the parser writes
/// it out, by name.
#[verifier::external_body]
pub(crate) fn parse_url(text: &str) -> (r: Option<String>)
    ensures
        match r {
            Some(url) => url_of(text@) == Some(url@),
            None => url_of(text@) is None,
        },
{
    reqwest::Url::parse(text).ok().map(String::from)
}

/// The SHA-256 digest of the UTF-8 bytes of a text, in lower-case
/// hexadecimal digits, as the `sha2` crate computes it.
pub uninterp spec fn sha256_hex_of(text: Seq<char>) -> Seq<char>;

/// `sha2::Sha256::digest` on the bytes of `text`, written in hexadecimal.
#[verifier::external_body]
pub(crate) fn sha256_hex(text: &str) -> (r: String)
    ensures
        r@ == sha256_hex_of(text@),
{
    format!("{:x}", <sha2::Sha256 as sha2::Digest>::digest(text.as_bytes()))
}

/// The instant that a text names in the RFC 3339 format, in nanoseconds
/// from the Unix epoch, as the `time` crate reads it; `None` where it
/// reads none.
pub uninterp spec fn rfc3339_nanos(text: Seq<char>) -> Option<int>;

/// `time::OffsetDateTime::parse` with the `Rfc3339` format, then
/// `unix_timestamp_nanos`: the instant that `text` names, by name.
#[verifier::external_body]
pub(crate) fn parse_rfc3339(text: &str) -> (r: Option<i128>)
    ensures
        match r {
            Some(nanos) => rfc3339_nanos(text@) == Some(nanos as int),
            None => rfc3339_nanos(text@) is None,
        },
{
    time::OffsetDateTime::parse(text, &time::format_description::well_known::Rfc3339).ok().map(
        |t| t.unix_timestamp_nanos(),
    )
}

/// The instant at which the day that a text names in a given format begins
/// at a given offset from UTC, in nanoseconds from the Unix epoch, as the
/// `time` crate reads it; `None` where the format, the text or the offset
/// is none that the crate accepts.
pub uninterp spec fn day_start_nanos(text: Seq<char>, format: Seq<char>, offset_secs: int) -> Option<
    int,
>;

/// `time::Date::parse` with the description that
/// `time::format_description::parse_borrowed` makes of `format`, then
/// `midnight`, `assume_offset` with the offset that
/// `time::UtcOffset::from_whole_seconds` makes of `offset_secs`, and
/// `unix_timestamp_nanos`: the start of the day that `text` names, by name.
#[verifier::external_body]
pub(crate) fn parse_day_start(text: &str, format: &str, offset_secs: i32) -> (r: Option<i128>)
    ensures
        match r {
            Some(nanos) => day_start_nanos(text@, format@, offset_secs as int) == Some(nanos as int),
            None => day_start_nanos(text@, format@, offset_secs as int) is None,
        },
{
    let items = time::format_description::parse_borrowed::<1>(format).ok()?;
    let offset = time::UtcOffset::from_whole_seconds(offset_secs).ok()?;
    let day = time::Date::parse(text, &items).ok()?;
    Some(day.midnight().assume_offset(offset).unix_timestamp_nanos())
}

/// The day that lies a number of months after a day, as `chrono` counts:
/// `None` where the day is none of the calendar, or the result is out of
/// the crate's range.
pub uninterp spec fn date_plus_months(date: CivilDate, months: u32) -> Option<CivilDate>;

/// `chrono::NaiveDate::from_ymd_opt`, then `checked_add_months`: the day
/// `months` months after `date`, by name.
#[verifier::external_body]
pub(crate) fn add_months(date: CivilDate, months: u32) -> (r: Option<CivilDate>)
    ensures
        r == date_plus_months(date, months),
{
    let day = NaiveDate::from_ymd_opt(date.year, date.month, date.day)?;
    let later = day.checked_add_months(chrono::Months::new(months))?;
    Some(CivilDate { year: later.year(), month: later.month(), day: later.day() })
}

/// The day that lies a number of days after a day, as `chrono` counts:
/// `None` where the day is none of the calendar, or the result is out of
/// the crate's range.
pub uninterp spec fn date_plus_days(date: CivilDate, days: u64) -> Option<CivilDate>;

/// `chrono::NaiveDate::from_ymd_opt`, then `checked_add_days`: the day
/// `days` days after `date`, by name.
#[verifier::external_body]
pub(crate) fn add_days(date: CivilDate, days: u64) -> (r: Option<CivilDate>)
    ensures
        r == date_plus_days(date, days),
{
    let day = NaiveDate::from_ymd_opt(date.year, date.month, date.day)?;
    let later = day.checked_add_days(chrono::Days::new(days))?;
    Some(CivilDate { year: later.year(), month: later.month(), day: later.day() })
}

/// What a time written for people names: a day, a time of day, or both.
#[derive(Debug, Clone, Copy, PartialEq, Eq, Structural)]
pub struct HumanTime {
    pub date: Option<CivilDate>,
    pub time: Option<TimeOfDay>,
}

/// What `human_date_parser::from_human_time` reads from a text at a given
/// current time; `None` where it reads nothing, or the current time is
/// none of calendar and clock.
pub uninterp spec fn human_time_of(text: Seq<char>, now: CivilDateTime) -> Option<HumanTime>;

/// A letter from `A` to `Z` in lower case; any other character unchanged.
pub open spec fn lower(c: char) -> char {
    if 'A' <= c <= 'Z' {
        ((c as u8) + 32) as char
    } else {
        c
    }
}

/// `text` reads `word` at `at`, whatever the case of its letters.
pub open spec fn reads_word(text: Seq<char>, at: int, word: Seq<char>) -> bool {
    &&& 0 <= at
    &&& at + word.len() <= text.len()
    &&& forall|k: int| 0 <= k < word.len() ==> lower(#[trigger] text[at + k]) == word[k]
}

/// Index of the first character of `text` at or after `from` that is no
/// space; the length of `text` if there is none.
pub open spec fn after_spaces(text: Seq<char>, from: int) -> int
    decreases text.len() - from,
{
    if from < 0 || from >= text.len() {
        text.len() as int
    } else if text[from] != ' ' {
        from
    } else {
        after_spaces(text, from + 1)
    }
}

/// What stands at `at` is read by the parser as an hour, a minute or a
/// second, and not as a day of the week: an `h`; an `m` that does not begin
/// `mon`; an `s` that begins neither `sat` nor `sun`.
pub open spec fn names_clock_unit(text: Seq<char>, at: int) -> bool {
    &&& 0 <= at < text.len()
    &&& {
        ||| lower(text[at]) == 'h'
        ||| lower(text[at]) == 'm' && !reads_word(text, at, seq!['m', 'o', 'n'])
        ||| lower(text[at]) == 's' && !reads_word(text, at, seq!['s', 'a', 't']) && !reads_word(
            text,
            at,
            seq!['s', 'u', 'n'],
        )
    }
}

/// At `at` stands `this`, `next` or `last`, and behind it, spaces apart, an
/// hour, a minute or a second. The parser reads such a pair and then does
/// not return.
pub open spec fn is_relative_clock_unit(text: Seq<char>, at: int) -> bool {
    &&& {
        ||| reads_word(text, at, seq!['t', 'h', 'i', 's'])
        ||| reads_word(text, at, seq!['n', 'e', 'x', 't'])
        ||| reads_word(text, at, seq!['l', 'a', 's', 't'])
    }
    &&& names_clock_unit(text, after_spaces(text, at + 4))
}

/// Somewhere in `text` stands `this`, `next` or `last` before an hour, a
/// minute or a second.
pub open spec fn has_relative_clock_unit(text: Seq<char>) -> bool {
    exists|at: int| 0 <= at < text.len() && is_relative_clock_unit(text, at)
}

/// No count of seconds goes beyond this one.
pub const SECONDS_CAP: u128 = 10_000_000_000_000;

/// The longest year, in seconds.
pub const LONG_YEAR: u128 = 31_622_400;

/// The shortest year, in seconds.
pub const SHORT_YEAR: u128 = 31_536_000;

/// A count of seconds, held to the cap.
pub open spec fn capped(seconds: int) -> int {
    if seconds > SECONDS_CAP {
        SECONDS_CAP as int
    } else {
        seconds
    }
}

/// The most seconds that one of the unit whose name begins with `c` lasts:
/// a second for `s`, an hour for `h`, a day for `d`, a week for `w`, a month
/// for `m`, and a year for every other character.
pub open spec fn unit_seconds(c: char) -> int {
    if lower(c) == 's' {
        1
    } else if lower(c) == 'h' {
        3_600
    } else if lower(c) == 'd' {
        86_400
    } else if lower(c) == 'w' {
        604_800
    } else if lower(c) == 'm' {
        2_678_400
    } else {
        LONG_YEAR as int
    }
}

/// Index behind the last character of `text` before `at` that is no
/// space; zero if there is none.
pub open spec fn before_spaces(text: Seq<char>, at: int) -> int
    decreases at,
{
    if at <= 0 || at > text.len() {
        0
    } else if text[at - 1] != ' ' {
        at
    } else {
        before_spaces(text, at - 1)
    }
}

/// `text` reads `word` up to `end`, whatever the case of its letters.
pub open spec fn reads_word_before(text: Seq<char>, end: int, word: Seq<char>) -> bool {
    reads_word(text, end - word.len(), word)
}

/// The name of a month, or its first three letters, ends at `end`.
pub open spec fn month_ends_at(text: Seq<char>, end: int) -> bool {
    ||| reads_word_before(text, end, seq!['j', 'a', 'n'])
    ||| reads_word_before(text, end, seq!['f', 'e', 'b'])
    ||| reads_word_before(text, end, seq!['m', 'a', 'r'])
    ||| reads_word_before(text, end, seq!['a', 'p', 'r'])
    ||| reads_word_before(text, end, seq!['m', 'a', 'y'])
    ||| reads_word_before(text, end, seq!['j', 'u', 'n'])
    ||| reads_word_before(text, end, seq!['j', 'u', 'l'])
    ||| reads_word_before(text, end, seq!['a', 'u', 'g'])
    ||| reads_word_before(text, end, seq!['s', 'e', 'p'])
    ||| reads_word_before(text, end, seq!['o', 'c', 't'])
    ||| reads_word_before(text, end, seq!['n', 'o', 'v'])
    ||| reads_word_before(text, end, seq!['d', 'e', 'c'])
    ||| reads_word_before(text, end, seq!['j', 'a', 'n', 'u', 'a', 'r', 'y'])
    ||| reads_word_before(text, end, seq!['f', 'e', 'b', 'r', 'u', 'a', 'r', 'y'])
    ||| reads_word_before(text, end, seq!['m', 'a', 'r', 'c', 'h'])
    ||| reads_word_before(text, end, seq!['a', 'p', 'r', 'i', 'l'])
    ||| reads_word_before(text, end, seq!['j', 'u', 'n', 'e'])
    ||| reads_word_before(text, end, seq!['j', 'u', 'l', 'y'])
    ||| reads_word_before(text, end, seq!['a', 'u', 'g', 'u', 's', 't'])
    ||| reads_word_before(text, end, seq!['s', 'e', 'p', 't', 'e', 'm', 'b', 'e', 'r'])
    ||| reads_word_before(text, end, seq!['o', 'c', 't', 'o', 'b', 'e', 'r'])
    ||| reads_word_before(text, end, seq!['n', 'o', 'v', 'e', 'm', 'b', 'e', 'r'])
    ||| reads_word_before(text, end, seq!['d', 'e', 'c', 'e', 'm', 'b', 'e', 'r'])
}

/// The number that begins at `at` stands behind the name of a month, spaces
/// apart: the parser can read it as a year.
pub open spec fn follows_month(text: Seq<char>, at: int) -> bool {
    month_ends_at(text, before_spaces(text, at))
}

/// A number of a text, held to the cap, and whether it counts as years
/// whatever follows it.
pub struct Number {
    pub value: int,
    pub as_years: bool,
}

/// Where the count of a text stands: the seconds counted, the number being
/// read, and the number read that waits for its unit.
pub struct Tally {
    pub seconds: int,
    pub reading: Option<Number>,
    pub waiting: Option<Number>,
}

/// The seconds that a number stands for at most, before the character `c`.
pub open spec fn number_seconds(number: Number, c: char) -> int {
    if number.as_years {
        number.value * LONG_YEAR
    } else {
        number.value * unit_seconds(c)
    }
}

/// The count after the character at `at`. A digit goes on with the number
/// being read, or begins one; a number that waited then counts as years.
/// Any other character ends the number being read; but for a space, it is
/// the unit by which the number that waits is counted.
pub open spec fn tally_with(tally: Tally, text: Seq<char>, at: int) -> Tally {
    let c = text[at];
    if '0' <= c <= '9' {
        Tally {
            seconds: match tally.waiting {
                Some(number) => capped(tally.seconds + number.value * LONG_YEAR),
                None => tally.seconds,
            },
            reading: Some(
                match tally.reading {
                    Some(number) => Number {
                        value: capped(number.value * 10 + (c as int - '0' as int)),
                        as_years: number.as_years,
                    },
                    None => Number {
                        value: c as int - '0' as int,
                        as_years: follows_month(text, at),
                    },
                },
            ),
            waiting: None,
        }
    } else {
        let waiting = match tally.reading {
            Some(number) => Some(number),
            None => tally.waiting,
        };
        match waiting {
            Some(number) if c != ' ' => Tally {
                seconds: capped(tally.seconds + number_seconds(number, c)),
                reading: None,
                waiting: None,
            },
            _ => Tally { seconds: tally.seconds, reading: None, waiting },
        }
    }
}

/// The count after the first `upto` characters of `text`.
pub open spec fn tally_before(text: Seq<char>, upto: int) -> Tally
    decreases upto,
{
    if upto <= 0 || upto > text.len() {
        Tally { seconds: 0, reading: None, waiting: None }
    } else {
        tally_with(tally_before(text, upto - 1), text, upto - 1)
    }
}

/// The seconds that the numbers of `text` can stand for at most, held to
/// the cap: each number counted by the unit whose first letter follows it,
/// and as years where none follows or where the number can be a year.
pub open spec fn request_seconds(text: Seq<char>) -> int {
    let tally = tally_before(text, text.len() as int);
    match (tally.reading, tally.waiting) {
        (Some(number), _) => capped(tally.seconds + number.value * LONG_YEAR),
        (None, Some(number)) => capped(tally.seconds + number.value * LONG_YEAR),
        (None, None) => tally.seconds,
    }
}

/// The years that `text` can lead away from the time it is read at, at
/// most: those of its numbers, and three for each of its characters, for
/// the words that stand for a span of time.
pub open spec fn request_years(text: Seq<char>) -> int {
    request_seconds(text) / (SHORT_YEAR as int) + 1 + 3 * text.len()
}

/// A request that the parser returns from: it holds no `this`, `next` or
/// `last` before an hour, a minute or a second, and the years it can lead
/// away from `now` stay within 262000 years of year zero, and so within the
/// range of `chrono`.
pub open spec fn is_modest_request(text: Seq<char>, now: CivilDateTime) -> bool {
    &&& !has_relative_clock_unit(text)
    &&& now.date.year + request_years(text) <= 262_000
    &&& now.date.year - request_years(text) >= -262_000
}

/// `human_date_parser::from_human_time` at the current time that
/// `chrono::NaiveDate::from_ymd_opt` and `and_hms_nano_opt` make of `now`:
/// what `text` names, by name. The parser does not return from a relative
/// hour, minute or second, and it adds the durations it reads to the time
/// it starts from without a check, so that it does not return where a sum
/// leaves the range of `chrono`: such requests are left out.
#[verifier::external_body]
pub(crate) fn read_human_time(text: &str, date: CivilDate, time: TimeOfDay) -> (r: Option<
    (Option<(i32, u32, u32)>, Option<(u32, u32, u32, u32)>),
>)
    requires
        is_modest_request(text@, CivilDateTime { date, time }),
    ensures
        match r {
            Some((day, clock)) => human_time_of(text@, CivilDateTime { date, time }) == Some(
                HumanTime { date: as_date(day), time: as_time(clock) },
            ),
            None => human_time_of(text@, CivilDateTime { date, time }) is None,
        },
{
    let now = NaiveDate::from_ymd_opt(date.year, date.month, date.day)?.and_hms_nano_opt(
        time.hour,
        time.minute,
        time.second,
        time.nanosecond,
    )?;
    let (d, t) = match human_date_parser::from_human_time(text, now).ok()? {
        ParseResult::DateTime(x) => (Some(x.date()), Some(x.time())),
        ParseResult::Date(x) => (Some(x), None),
        ParseResult::Time(x) => (None, Some(x)),
    };
    let clock = t.map(|t| (t.hour(), t.minute(), t.second(), t.nanosecond()));
    Some((d.map(|d| (d.year(), d.month(), d.day())), clock))
}

/// Year, month and day, as a day.
pub open spec fn as_date(day: Option<(i32, u32, u32)>) -> Option<CivilDate> {
    match day {
        Some((year, month, day)) => Some(CivilDate { year, month, day }),
        None => None,
    }
}

/// Hour, minute, second and nanosecond, as a time of day.
pub open spec fn as_time(clock: Option<(u32, u32, u32, u32)>) -> Option<TimeOfDay> {
    match clock {
        Some((hour, minute, second, nanosecond)) => Some(
            TimeOfDay { hour, minute, second, nanosecond },
        ),
        None => None,
    }
}

/// A time as `chrono` writes it out after a pattern: the time that
/// calendar and clock show as `local` at `offset_secs` seconds east of UTC.
/// `None` where the time or the offset is none that the crate accepts, or
/// the pattern is none that it can follow.
pub uninterp spec fn formatted_time(local: CivilDateTime, offset_secs: int, pattern: Seq<char>) -> Option<
    Seq<char>,
>;

/// `chrono::FixedOffset::east_opt`, `TimeZone::from_local_datetime` on the
/// time that `chrono::NaiveDate::from_ymd_opt` and `and_hms_nano_opt` make of
/// `local`, then `DateTime::format`: the time written after `pattern`, by
/// name.
#[verifier::external_body]
pub(crate) fn format_time(local: CivilDateTime, offset_secs: i32, pattern: &str) -> (r: Option<String>)
    ensures
        match r {
            Some(text) => formatted_time(local, offset_secs as int, pattern@) == Some(text@),
            None => formatted_time(local, offset_secs as int, pattern@) is None,
        },
{
    let (d, t) = (local.date, local.time);
    let naive = NaiveDate::from_ymd_opt(d.year, d.month, d.day)?.and_hms_nano_opt(
        t.hour,
        t.minute,
        t.second,
        t.nanosecond,
    )?;
    let zoned = chrono::FixedOffset::east_opt(offset_secs)?.from_local_datetime(&naive).single()?;
    let mut text = String::new();
    write!(text, "{}", zoned.format(pattern)).ok()?;
    Some(text)
}

/// A leap year of the Gregorian calendar, counted on before its beginning.
pub open spec fn is_leap_year(year: int) -> bool {
    year % 4 == 0 && (year % 100 != 0 || year % 400 == 0)
}

/// The number of days of a month.
pub open spec fn days_in_month(year: int, month: int) -> int {
    if month == 2 {
        if is_leap_year(year) {
            29
        } else {
            28
        }
    } else if month == 4 || month == 6 || month == 9 || month == 11 {
        30
    } else {
        31
    }
}

/// A day that `chrono` knows: a day of the Gregorian calendar in a year
/// from -262143 to 262142.
pub open spec fn is_calendar_day(date: CivilDate) -> bool {
    &&& -262_143 <= date.year <= 262_142
    &&& 1 <= date.month <= 12
    &&& 1 <= date.day <= days_in_month(date.year as int, date.month as int)
}

/// `chrono::NaiveDate::from_ymd_opt`: whether the calendar has the day.
#[verifier::external_body]
pub(crate) fn calendar_has(date: CivilDate) -> (r: bool)
    ensures
        r == is_calendar_day(date),
{
    NaiveDate::from_ymd_opt(date.year, date.month, date.day).is_some()
}

/// A time as `chrono` writes it out after a pattern: the time that
/// calendar and clock show as `utc` at UTC, written as they show it
/// `offset_secs` seconds east. `None` where the time or the offset is
/// none that the crate accepts, or the pattern is none that it can follow.
pub uninterp spec fn formatted_utc_time(utc: CivilDateTime, offset_secs: int, pattern: Seq<char>) -> Option<
    Seq<char>,
>;

/// `chrono::FixedOffset::east_opt`, `TimeZone::from_utc_datetime` on the
/// time that `chrono::NaiveDate::from_ymd_opt` and `and_hms_nano_opt` make of
/// `utc`, then `DateTime::format`: the time written after `pattern`, by
/// name.
#[verifier::external_body]
pub(crate) fn format_utc_time(utc: CivilDateTime, offset_secs: i32, pattern: &str) -> (r: Option<String>)
    ensures
        match r {
            Some(text) => formatted_utc_time(utc, offset_secs as int, pattern@) == Some(text@),
            None => formatted_utc_time(utc, offset_secs as int, pattern@) is None,
        },
{
    let (d, t) = (utc.date, utc.time);
    let naive = NaiveDate::from_ymd_opt(d.year, d.month, d.day)?.and_hms_nano_opt(
        t.hour,
        t.minute,
        t.second,
        t.nanosecond,
    )?;
    let zoned = chrono::FixedOffset::east_opt(offset_secs)?.from_utc_datetime(&naive);
    let mut text = String::new();
    write!(text, "{}", zoned.format(pattern)).ok()?;
    Some(text)
}

} // verus!
