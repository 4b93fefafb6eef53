//! The frontmatter of a post: the lines between two `+++` lines at its
//! head, where its date stands.

use vstd::prelude::*;
use vstd::utf8::encode_utf8;
use crate::instant::Instant;
use crate::outside::{day_start_nanos, parse_day_start, parse_rfc3339, rfc3339_nanos};
use crate::text::{
    chars_of, count_of, extend, lemma_counted_is_found, lines_of, occurs_once, reads_at,
    second_field, second_field_of, split_lines, starts_with, string_of, trim, trimmed, views,
};

verus! {

/// How a day is written where no time is given.
pub const DAY_FORMAT: &'static str = "[year]-[month]-[day]";

/// Why a post has no publication date.
#[derive(Debug, PartialEq, Eq)]
pub enum DateError {
    /// The `date` line does not hold exactly one `=`.
    Invalid,
    /// What stands behind `date =` is no date.
    Malformed,
    /// The frontmatter holds no `date` line.
    Missing,
}

/// The line opens or closes the frontmatter.
pub open spec fn is_separator(line: Seq<char>) -> bool {
    reads_at(line, 0, "+++"@)
}

/// The line gives the date.
pub open spec fn is_date_line(line: Seq<char>) -> bool {
    !is_separator(line) && reads_at(line, 0, "date"@)
}

/// How many of the first `upto` lines are separators.
pub open spec fn separators_before(lines: Seq<Seq<char>>, upto: int) -> int
    decreases upto,
{
    if upto <= 0 || upto > lines.len() {
        0
    } else if is_separator(lines[upto - 1]) {
        separators_before(lines, upto - 1) + 1
    } else {
        separators_before(lines, upto - 1)
    }
}

/// Index of the first date line at or after `from`; the number of lines if
/// there is none.
pub open spec fn first_date_line(lines: Seq<Seq<char>>, from: int) -> int
    decreases lines.len() - from,
{
    if from < 0 || from >= lines.len() {
        lines.len() as int
    } else if is_date_line(lines[from]) {
        from
    } else {
        first_date_line(lines, from + 1)
    }
}

/// The instant that a date line names, in nanoseconds from the Unix epoch.
///
/// The date stands behind the one `=` of the line. Ten bytes long, it is a
/// day, and the instant is the start of that day at the given offset from
/// UTC; otherwise it is an instant written in the RFC 3339 format.
pub open spec fn date_of_line(line: Seq<char>, offset_secs: int) -> Result<int, DateError> {
    if count_of(line, '=') != 1 {
        Err(DateError::Invalid)
    } else {
        let text = trimmed(second_field_of(line, '='));
        let read = if encode_utf8(text).len() == 10 {
            day_start_nanos(text, DAY_FORMAT@, offset_secs)
        } else {
            rfc3339_nanos(text)
        };
        match read {
            Some(nanos) => Ok(nanos),
            None => Err(DateError::Malformed),
        }
    }
}

/// The publication date of a post with the given lines: that of its first
/// date line, which must stand before the second separator.
pub open spec fn date_in_lines(lines: Seq<Seq<char>>, offset_secs: int) -> Result<int, DateError> {
    let at = first_date_line(lines, 0);
    if at < lines.len() && separators_before(lines, at) < 2 {
        date_of_line(lines[at], offset_secs)
    } else {
        Err(DateError::Missing)
    }
}

/// The publication date of a post with the given text.
pub open spec fn date_in(content: Seq<char>, offset_secs: int) -> Result<int, DateError> {
    date_in_lines(lines_of(content), offset_secs)
}

proof fn lemma_first_date_line(lines: Seq<Seq<char>>, from: int)
    requires
        0 <= from <= lines.len(),
    ensures
        from <= first_date_line(lines, from) <= lines.len(),
    decreases lines.len() - from,
{
    if from < lines.len() && !is_date_line(lines[from]) {
        lemma_first_date_line(lines, from + 1);
    }
}

proof fn lemma_separators_grow(lines: Seq<Seq<char>>, from: int, upto: int)
    requires
        0 <= from <= upto <= lines.len(),
    ensures
        separators_before(lines, from) <= separators_before(lines, upto),
    decreases upto - from,
{
    if from < upto {
        lemma_separators_grow(lines, from, upto - 1);
    }
}

fn read_date_line(line: &Vec<char>, offset_secs: i32) -> (r: Result<Instant, DateError>)
    ensures
        match r {
            Ok(t) => date_of_line(line@, offset_secs as int) == Ok::<int, DateError>(t@),
            Err(e) => date_of_line(line@, offset_secs as int) == Err::<int, DateError>(e),
        },
{
    if !occurs_once(line, '=') {
        return Err(DateError::Invalid);
    }
    proof {
        lemma_counted_is_found(line@, '=', line@.len() as int);
    }
    let field = match second_field(line, '=') {
        Some(field) => field,
        None => {
            return Err(DateError::Invalid);
        },
    };
    let text = string_of(&trim(&field));
    assert(text@ == trimmed(second_field_of(line@, '=')));
    let read = if text.as_str().as_bytes().len() == 10 {
        parse_day_start(text.as_str(), DAY_FORMAT, offset_secs)
    } else {
        parse_rfc3339(text.as_str())
    };
    match read {
        Some(nanos) => Ok(Instant { nanos }),
        None => Err(DateError::Malformed),
    }
}

/// Reads the publication date of a post from its text. `offset_secs` is
/// the offset from UTC, in seconds east, at which a date without a time
/// begins.
pub fn extract_date(content: &str, offset_secs: i32) -> (r: Result<Instant, DateError>)
    ensures
        match r {
            Ok(t) => date_in(content@, offset_secs as int) == Ok::<int, DateError>(t@),
            Err(e) => date_in(content@, offset_secs as int) == Err::<int, DateError>(e),
        },
{
    let lines = split_lines(&chars_of(content));
    let separator = chars_of("+++");
    let date_key = chars_of("date");
    let mut separators: usize = 0;
    let mut i: usize = 0;
    while i < lines.len()
        invariant
            i <= lines@.len(),
            views(lines@) == lines_of(content@),
            separator@ == "+++"@,
            date_key@ == "date"@,
            separators == separators_before(views(lines@), i as int),
            separators < 2,
            first_date_line(views(lines@), 0) == first_date_line(views(lines@), i as int),
        decreases lines@.len() - i,
    {
        assert(views(lines@)[i as int] == lines@[i as int]@);
        if starts_with(&lines[i], &separator) {
            separators += 1;
            if separators >= 2 {
                proof {
                    let all = views(lines@);
                    lemma_first_date_line(all, i + 1);
                    let at = first_date_line(all, 0);
                    if at < all.len() {
                        lemma_separators_grow(all, i + 1, at);
                    }
                }
                return Err(DateError::Missing);
            }
        } else if starts_with(&lines[i], &date_key) {
            return read_date_line(&lines[i], offset_secs);
        }
        i += 1;
    }
    Err(DateError::Missing)
}

/// How the frontmatter of a post is rewritten.
pub enum FrontEdit {
    /// The post is scheduled: its date becomes `date`.
    Reschedule { date: String },
    /// The post is published: its date becomes `date`, and it is a draft no
    /// longer.
    Publish { date: String },
    /// A draft is made from a template: title, date and the mark of a
    /// draft follow the opening of the frontmatter.
    Draft { title: String, date: String },
}

/// An edit, with its texts as character sequences.
pub enum FrontEditView {
    Reschedule { date: Seq<char> },
    Publish { date: Seq<char> },
    Draft { title: Seq<char>, date: Seq<char> },
}

impl View for FrontEdit {
    type V = FrontEditView;

    open spec fn view(&self) -> FrontEditView {
        match *self {
            FrontEdit::Reschedule { date } => FrontEditView::Reschedule { date: date@ },
            FrontEdit::Publish { date } => FrontEditView::Publish { date: date@ },
            FrontEdit::Draft { title, date } => FrontEditView::Draft { title: title@, date: date@ },
        }
    }
}

/// Why the frontmatter of a post cannot be rewritten.
#[derive(Debug, PartialEq, Eq)]
pub enum FrontError {
    /// The text does not hold the two `+++` lines of a frontmatter.
    MissingDelimiter,
}

/// A line, ended.
pub open spec fn ended(line: Seq<char>) -> Seq<char> {
    line + "\n"@
}

/// What a line of the frontmatter becomes under an edit.
pub open spec fn edited_line(edit: FrontEditView, line: Seq<char>) -> Seq<char> {
    match edit {
        FrontEditView::Reschedule { date } => if reads_at(line, 0, "date = "@) {
            ended("date = "@ + date)
        } else {
            ended(line)
        },
        FrontEditView::Publish { date } => if reads_at(line, 0, "date = "@) {
            ended("date = "@ + date)
        } else if !reads_at(line, 0, "draft ="@) {
            ended(line)
        } else {
            Seq::empty()
        },
        FrontEditView::Draft { title, date } => if reads_at(line, 0, "+++"@) {
            "+++\ntitle = \""@ + title + "\"\ndate = "@ + date + "\ndraft = true\n"@
        } else {
            ended(line)
        },
    }
}

/// The first `upto` lines rewritten: a line is edited while fewer than two
/// separators have been met, itself counted; from the second separator on
/// lines are kept as they are.
pub open spec fn rewritten_before(lines: Seq<Seq<char>>, edit: FrontEditView, upto: int) -> Seq<
    char,
>
    decreases upto,
{
    if upto <= 0 || upto > lines.len() {
        Seq::empty()
    } else if separators_before(lines, upto) >= 2 {
        rewritten_before(lines, edit, upto - 1) + ended(lines[upto - 1])
    } else {
        rewritten_before(lines, edit, upto - 1) + edited_line(edit, lines[upto - 1])
    }
}

/// A post with its frontmatter rewritten, or why it cannot be.
pub open spec fn rewritten(content: Seq<char>, edit: FrontEditView) -> Result<Seq<char>, FrontError> {
    let lines = lines_of(content);
    if separators_before(lines, lines.len() as int) >= 2 {
        Ok(rewritten_before(lines, edit, lines.len() as int))
    } else {
        Err(FrontError::MissingDelimiter)
    }
}

fn edit_line(edit: &FrontEdit, line: &Vec<char>) -> (r: Vec<char>)
    ensures
        r@ == edited_line(edit@, line@),
{
    let mut out: Vec<char> = Vec::new();
    match edit {
        FrontEdit::Reschedule { date } => {
            if starts_with(line, &chars_of("date = ")) {
                extend(&mut out, &chars_of("date = "));
                extend(&mut out, &chars_of(date.as_str()));
            } else {
                extend(&mut out, line);
            }
            extend(&mut out, &chars_of("\n"));
        },
        FrontEdit::Publish { date } => {
            if starts_with(line, &chars_of("date = ")) {
                extend(&mut out, &chars_of("date = "));
                extend(&mut out, &chars_of(date.as_str()));
                extend(&mut out, &chars_of("\n"));
            } else if !starts_with(line, &chars_of("draft =")) {
                extend(&mut out, line);
                extend(&mut out, &chars_of("\n"));
            }
        },
        FrontEdit::Draft { title, date } => {
            if starts_with(line, &chars_of("+++")) {
                extend(&mut out, &chars_of("+++\ntitle = \""));
                extend(&mut out, &chars_of(title.as_str()));
                extend(&mut out, &chars_of("\"\ndate = "));
                extend(&mut out, &chars_of(date.as_str()));
                extend(&mut out, &chars_of("\ndraft = true\n"));
            } else {
                extend(&mut out, line);
                extend(&mut out, &chars_of("\n"));
            }
        },
    }
    out
}

/// Rewrites the frontmatter of a post line by line, and keeps the rest.
pub fn modify_front(content: &str, edit: &FrontEdit) -> (r: Result<String, FrontError>)
    ensures
        match r {
            Ok(text) => rewritten(content@, edit@) == Ok::<Seq<char>, FrontError>(text@),
            Err(e) => rewritten(content@, edit@) == Err::<Seq<char>, FrontError>(e),
        },
{
    let lines = split_lines(&chars_of(content));
    let separator = chars_of("+++");
    let newline = chars_of("\n");
    let mut out: Vec<char> = Vec::new();
    let mut separators: usize = 0;
    let mut i: usize = 0;
    while i < lines.len()
        invariant
            i <= lines@.len(),
            views(lines@) == lines_of(content@),
            separator@ == "+++"@,
            newline@ == "\n"@,
            separators <= 2,
            separators < 2 ==> separators == separators_before(views(lines@), i as int),
            separators == 2 ==> separators_before(views(lines@), i as int) >= 2,
            out@ == rewritten_before(views(lines@), edit@, i as int),
        decreases lines@.len() - i,
    {
        assert(views(lines@)[i as int] == lines@[i as int]@);
        if separators < 2 && starts_with(&lines[i], &separator) {
            separators += 1;
        }
        if separators >= 2 {
            extend(&mut out, &lines[i]);
            extend(&mut out, &newline);
        } else {
            let edited = edit_line(edit, &lines[i]);
            extend(&mut out, &edited);
        }
        i += 1;
    }
    if separators < 2 {
        Err(FrontError::MissingDelimiter)
    } else {
        Ok(string_of(&out))
    }
}

} // verus!
