//! Moving a post through its life: from template to draft, from draft to
//! schedule, from there to publication.

use vstd::prelude::*;
use crate::civil::{CivilDate, CivilDateTime, TimeOfDay};
use crate::config::SiteConfig;
use crate::outside::{
    calendar_has, format_time, format_utc_time, formatted_time, formatted_utc_time,
    is_calendar_day, path_is_under, path_starts_with, slug_of, slugify,
};
use crate::post::{modify_front, rewritten, FrontEdit, FrontEditView, FrontError};
use crate::text::{
    chars_of, contains_text, find_from, index_from, lemma_index_from, lemma_last_index_before,
    last_index_before, lines_of, occurs_in, reads_at, rfind, slice, split_lines, starts_with,
    string_of, views,
};

verus! {

/// How the date of a post is written.
pub const DATE_PATTERN: &'static str = "%Y-%m-%dT%H:%M:%S%:z";

/// How a date is written at UTC.
pub const UTC_DATE_PATTERN: &'static str = "%Y-%m-%dT%H:%M:%SZ";

/// Writes the date of a post: the time that calendar and clock show as
/// `local` at `offset_secs` seconds east of UTC.
pub fn format_date(local: CivilDateTime, offset_secs: i32) -> (r: Option<String>)
    ensures
        match r {
            Some(text) => formatted_time(local, offset_secs as int, DATE_PATTERN@) == Some(text@),
            None => formatted_time(local, offset_secs as int, DATE_PATTERN@) is None,
        },
{
    format_time(local, offset_secs, DATE_PATTERN)
}

/// Writes a time of UTC.
pub fn format_utc_date(utc: CivilDateTime) -> (r: Option<String>)
    ensures
        match r {
            Some(text) => formatted_time(utc, 0, UTC_DATE_PATTERN@) == Some(text@),
            None => formatted_time(utc, 0, UTC_DATE_PATTERN@) is None,
        },
{
    format_time(utc, 0, UTC_DATE_PATTERN)
}

/// Index of the first of `names`, from `from` on, in which `filename`
/// occurs; the number of names if there is none.
pub open spec fn first_holding(names: Seq<String>, filename: Seq<char>, from: int) -> int
    decreases names.len() - from,
{
    if from < 0 || from >= names.len() {
        names.len() as int
    } else if occurs_in(filename, names[from]@) {
        from
    } else {
        first_holding(names, filename, from + 1)
    }
}

/// Looks among the names of the files of a directory for one in which
/// `filename` occurs, and gives the index of the first.
pub fn does_same_title_exist(filename: &str, names: &Vec<String>) -> (r: Option<usize>)
    ensures
        match r {
            Some(i) => i < names@.len() && i == first_holding(names@, filename@, 0),
            None => first_holding(names@, filename@, 0) == names@.len(),
        },
{
    let needle = chars_of(filename);
    let mut i: usize = 0;
    while i < names.len()
        invariant
            i <= names@.len(),
            needle@ == filename@,
            first_holding(names@, filename@, 0) == first_holding(names@, filename@, i as int),
        decreases names@.len() - i,
    {
        if contains_text(&chars_of(names[i].as_str()), &needle) {
            return Some(i);
        }
        i += 1;
    }
    None
}

/// Whether a post lies where posts are published from: under the drafts
/// directory or under the schedule directory.
pub fn is_publishable(post: &str, cfg: &SiteConfig) -> (r: bool)
    ensures
        r == (path_is_under(post@, cfg.drafts_creation_dir@) || path_is_under(
            post@,
            cfg.schedule_dir@,
        )),
{
    let under_drafts = path_starts_with(post, cfg.drafts_creation_dir.as_str());
    let under_schedule = path_starts_with(post, cfg.schedule_dir.as_str());
    publishable_from(under_drafts, under_schedule)
}

/// Whether a post may be published, from where it lies: it may from under
/// the drafts directory, and from under the schedule directory.
pub fn publishable_from(under_drafts: bool, under_schedule: bool) -> (r: bool)
    ensures
        r == (under_drafts || under_schedule),
{
    under_drafts || under_schedule
}

/// The text of a post as it is published with the date `date`: the date
/// line rewritten, the draft line gone.
pub fn publish_post(content: &str, date: &str) -> (r: Result<String, FrontError>)
    ensures
        match r {
            Ok(text) => rewritten(content@, FrontEditView::Publish { date: date@ }) == Ok::<
                Seq<char>,
                FrontError,
            >(text@),
            Err(e) => rewritten(content@, FrontEditView::Publish { date: date@ }) == Err::<
                Seq<char>,
                FrontError,
            >(e),
        },
{
    let edit = FrontEdit::Publish { date: date.to_owned() };
    modify_front(content, &edit)
}

/// The text of a post as it is scheduled for `date`: the date line
/// rewritten.
pub fn schedule_post(content: &str, date: &str) -> (r: Result<String, FrontError>)
    ensures
        match r {
            Ok(text) => rewritten(content@, FrontEditView::Reschedule { date: date@ }) == Ok::<
                Seq<char>,
                FrontError,
            >(text@),
            Err(e) => rewritten(content@, FrontEditView::Reschedule { date: date@ }) == Err::<
                Seq<char>,
                FrontError,
            >(e),
        },
{
    let edit = FrontEdit::Reschedule { date: date.to_owned() };
    modify_front(content, &edit)
}

/// The extension is that of a markdown file: `md`, in any case.
pub open spec fn is_markdown(extension: Seq<char>) -> bool {
    &&& extension.len() == 2
    &&& extension[0] == 'm' || extension[0] == 'M'
    &&& extension[1] == 'd' || extension[1] == 'D'
}

/// Whether the extension of a file is that of a markdown file.
pub fn has_markdown_extension(extension: &str) -> (r: bool)
    ensures
        r == is_markdown(extension@),
{
    let text = chars_of(extension);
    text.len() == 2 && (text[0] == 'm' || text[0] == 'M') && (text[1] == 'd' || text[1] == 'D')
}

/// The frontmatter of a draft made without a template.
pub open spec fn bare_draft(title: Seq<char>, date: Seq<char>) -> Seq<char> {
    "+++\ntitle = \""@ + title + "\"\ndate = "@ + date + "\ndraft = true\n+++\n"@
}

/// The text of a new draft: the template with title, date and the mark of
/// a draft behind the opening of its frontmatter, or a bare frontmatter
/// where there is no template.
pub fn create_draft(template: Option<&str>, title: &str, date: &str) -> (r: Result<String, FrontError>)
    ensures
        match template {
            None => r matches Ok(text) && text@ == bare_draft(title@, date@),
            Some(content) => match r {
                Ok(text) => rewritten(
                    content@,
                    FrontEditView::Draft { title: title@, date: date@ },
                ) == Ok::<Seq<char>, FrontError>(text@),
                Err(e) => rewritten(
                    content@,
                    FrontEditView::Draft { title: title@, date: date@ },
                ) == Err::<Seq<char>, FrontError>(e),
            },
        },
{
    match template {
        Some(content) => {
            let edit = FrontEdit::Draft { title: title.to_owned(), date: date.to_owned() };
            modify_front(content, &edit)
        },
        None => {
            let mut text = "+++\ntitle = \"".to_owned();
            text.append(title);
            text.append("\"\ndate = ");
            text.append(date);
            text.append("\ndraft = true\n+++\n");
            Ok(text)
        },
    }
}

/// The name of the file of a post with the given title: its slug, then
/// `.md`.
pub fn post_file_name(title: &str) -> (r: String)
    ensures
        r@ == slug_of(title@) + ".md"@,
{
    let mut name = slugify(title);
    name.append(".md");
    name
}

/// The date that a draft made at `today` carries: the day `year_shift`
/// years on, at the hour and the minute of `today`, the second being the
/// day of the month; `None` where the calendar has no such day.
pub open spec fn draft_date_of(today: CivilDateTime, year_shift: int) -> Option<CivilDateTime> {
    let year = today.date.year + year_shift;
    if !(i32::MIN <= year <= i32::MAX) {
        None
    } else {
        let date = CivilDate { year: year as i32, month: today.date.month, day: today.date.day };
        if is_calendar_day(date) {
            Some(
                CivilDateTime {
                    date,
                    time: TimeOfDay {
                        hour: today.time.hour,
                        minute: today.time.minute,
                        second: today.date.day,
                        nanosecond: 0,
                    },
                },
            )
        } else {
            None
        }
    }
}

/// The date that a draft made at `today` carries.
pub fn draft_date(today: CivilDateTime, year_shift: i32) -> (r: Option<CivilDateTime>)
    ensures
        r == draft_date_of(today, year_shift as int),
{
    let year = match today.date.year.checked_add(year_shift) {
        Some(year) => year,
        None => {
            return None;
        },
    };
    let date = CivilDate { year, month: today.date.month, day: today.date.day };
    if calendar_has(date) {
        Some(
            CivilDateTime {
                date,
                time: TimeOfDay {
                    hour: today.time.hour,
                    minute: today.time.minute,
                    second: today.date.day,
                    nanosecond: 0,
                },
            },
        )
    } else {
        None
    }
}

/// Writes the date of a draft: the time `utc` of UTC, as calendar and
/// clock show it `offset_secs` seconds east.
pub fn format_draft_date(utc: CivilDateTime, offset_secs: i32) -> (r: Option<String>)
    ensures
        match r {
            Some(text) => formatted_utc_time(utc, offset_secs as int, DATE_PATTERN@) == Some(text@),
            None => formatted_utc_time(utc, offset_secs as int, DATE_PATTERN@) is None,
        },
{
    format_utc_time(utc, offset_secs, DATE_PATTERN)
}

/// Why a post cannot be named after its title.
#[derive(Debug, PartialEq, Eq)]
pub enum ReslugError {
    /// The title line holds no quote.
    NoQuote,
    /// The title line holds one quote only.
    Corrupted,
}

/// Index of the first line at or after `from` that begins with `key`; the
/// number of lines if there is none.
pub open spec fn first_line_with(lines: Seq<Seq<char>>, key: Seq<char>, from: int) -> int
    decreases lines.len() - from,
{
    if from < 0 || from >= lines.len() {
        lines.len() as int
    } else if reads_at(lines[from], 0, key) {
        from
    } else {
        first_line_with(lines, key, from + 1)
    }
}

/// The title that a line gives: what stands between its first and its
/// last quote.
pub open spec fn quoted_in(line: Seq<char>) -> Result<Seq<char>, ReslugError> {
    let start = index_from(line, '"', 0);
    let end = last_index_before(line, '"', line.len() as int);
    if start >= line.len() {
        Err(ReslugError::NoQuote)
    } else if start < end {
        Ok(line.subrange(start + 1, end))
    } else {
        Err(ReslugError::Corrupted)
    }
}

/// The title of a post: that of its first line beginning with `title`;
/// empty where there is no such line.
pub open spec fn title_in(content: Seq<char>) -> Result<Seq<char>, ReslugError> {
    let lines = lines_of(content);
    let at = first_line_with(lines, "title"@, 0);
    if at < lines.len() {
        quoted_in(lines[at])
    } else {
        Ok(Seq::empty())
    }
}

/// Reads the title of a post from its text.
pub fn read_title(content: &str) -> (r: Result<String, ReslugError>)
    ensures
        match r {
            Ok(title) => title_in(content@) == Ok::<Seq<char>, ReslugError>(title@),
            Err(e) => title_in(content@) == Err::<Seq<char>, ReslugError>(e),
        },
{
    let lines = split_lines(&chars_of(content));
    let key = chars_of("title");
    let mut i: usize = 0;
    while i < lines.len()
        invariant
            i <= lines@.len(),
            views(lines@) == lines_of(content@),
            key@ == "title"@,
            first_line_with(views(lines@), key@, 0) == first_line_with(views(lines@), key@, i as int),
        decreases lines@.len() - i,
    {
        assert(views(lines@)[i as int] == lines@[i as int]@);
        if starts_with(&lines[i], &key) {
            let line = &lines[i];
            let start = find_from(line, '"', 0);
            proof {
                lemma_index_from(line@, '"', 0);
                lemma_last_index_before(line@, '"', line@.len() as int);
            }
            if start >= line.len() {
                return Err(ReslugError::NoQuote);
            }
            return match rfind(line, '"') {
                Some(end) => {
                    if start < end {
                        Ok(string_of(&slice(line, start + 1, end)))
                    } else {
                        Err(ReslugError::Corrupted)
                    }
                },
                None => Err(ReslugError::Corrupted),
            };
        }
        i += 1;
    }
    Ok(String::new())
}

/// The name that the file of a post is to have: the slug of its title,
/// then `.md`.
pub fn reslugged_name(content: &str) -> (r: Result<String, ReslugError>)
    ensures
        match r {
            Ok(name) => title_in(content@) matches Ok(title) && name@ == slug_of(title) + ".md"@,
            Err(e) => title_in(content@) == Err::<Seq<char>, ReslugError>(e),
        },
{
    match read_title(content) {
        Ok(title) => Ok(post_file_name(title.as_str())),
        Err(e) => Err(e),
    }
}

/// Whether a file of a directory is to be named after its title: it is
/// when its name begins with `-`.
pub fn reslug(file_name: &str) -> (r: bool)
    ensures
        r == reads_at(file_name@, 0, "-"@),
{
    starts_with(&chars_of(file_name), &chars_of("-"))
}

} // verus!
