//! The list of jobs handed to `at`: which job publishes which post.
//!
//! A line of the list reads `job 12 at Mon Jan  1 10:00:00 2024 "slug"`.

use vstd::prelude::*;
use crate::git::{has_word, skip_to_word, skip_word, word_at, word_end, word_start};
use crate::text::{
    chars_of, ends_in, ends_with, extend, lines_of, reads_at, slice, split_lines, starts_with,
    string_of, string_views, views,
};

verus! {

/// Index of the first character of `s` at or after `from` that is no
/// quote; the length of `s` if there is none.
pub open spec fn skip_quotes(s: Seq<char>, from: int) -> int
    decreases s.len() - from,
{
    if from < 0 || from >= s.len() {
        s.len() as int
    } else if s[from] != '"' {
        from
    } else {
        skip_quotes(s, from + 1)
    }
}

/// Length of `s` without the quotes at its end, above `floor`.
pub open spec fn drop_quotes(s: Seq<char>, floor: int, upto: int) -> int
    decreases upto,
{
    if upto <= floor || upto > s.len() || upto <= 0 {
        floor
    } else if s[upto - 1] != '"' {
        upto
    } else {
        drop_quotes(s, floor, upto - 1)
    }
}

/// `s` without the quotes at its two ends.
pub open spec fn unquoted(s: Seq<char>) -> Seq<char> {
    let start = skip_quotes(s, 0);
    s.subrange(start, drop_quotes(s, start, s.len() as int))
}

/// `s` without the quotes at its two ends.
pub fn strip_quotes(s: &Vec<char>) -> (r: Vec<char>)
    ensures
        r@ == unquoted(s@),
{
    let mut start: usize = 0;
    while start < s.len() && s[start] == '"'
        invariant
            start <= s@.len(),
            skip_quotes(s@, 0) == skip_quotes(s@, start as int),
        decreases s@.len() - start,
    {
        start += 1;
    }
    let mut end: usize = s.len();
    while end > start && s[end - 1] == '"'
        invariant
            start <= end <= s@.len(),
            drop_quotes(s@, start as int, s@.len() as int) == drop_quotes(
                s@,
                start as int,
                end as int,
            ),
        decreases end,
    {
        end -= 1;
    }
    slice(s, start, end)
}

/// What `at` is asked: when to run, and what.
pub struct AtJob {
    pub date: String,
    pub command: String,
}

/// The job that publishes the post `slug` at `date`: the date without the
/// quotes around it, the command `emile publish-flow slug`.
pub fn schedule_publish(date: &str, slug: &str) -> (r: AtJob)
    ensures
        r.date@ == unquoted(date@),
        r.command@ == "emile publish-flow "@ + slug@,
{
    let mut command = "emile publish-flow ".to_owned();
    command.append(slug);
    AtJob { date: string_of(&strip_quotes(&chars_of(date))), command }
}

/// How a line of the list ends that belongs to the post `slug`.
pub open spec fn job_mark(slug: Seq<char>) -> Seq<char> {
    "\""@ + slug + "\""@
}

fn make_mark(slug: &str) -> (r: Vec<char>)
    ensures
        r@ == job_mark(slug@),
{
    let mut mark = chars_of("\"");
    extend(&mut mark, &chars_of(slug));
    extend(&mut mark, &chars_of("\""));
    mark
}

/// The lines for the list that the first `upto` lines of the answer of
/// `at` give: each line beginning with `job`, then the mark of the post.
pub open spec fn records_before(lines: Seq<Seq<char>>, slug: Seq<char>, upto: int) -> Seq<char>
    decreases upto,
{
    if upto <= 0 || upto > lines.len() {
        Seq::empty()
    } else if reads_at(lines[upto - 1], 0, "job"@) {
        records_before(lines, slug, upto - 1) + lines[upto - 1] + " "@ + job_mark(slug) + "\n"@
    } else {
        records_before(lines, slug, upto - 1)
    }
}

/// What is added to the list of jobs for the post `slug`, from what `at`
/// answered.
pub fn job_records(answer: &str, slug: &str) -> (r: String)
    ensures
        r@ == records_before(lines_of(answer@), slug@, lines_of(answer@).len() as int),
{
    let lines = split_lines(&chars_of(answer));
    let key = chars_of("job");
    let mark = make_mark(slug);
    let space = chars_of(" ");
    let newline = chars_of("\n");
    let mut out: Vec<char> = Vec::new();
    let mut i: usize = 0;
    while i < lines.len()
        invariant
            i <= lines@.len(),
            views(lines@) == lines_of(answer@),
            key@ == "job"@,
            mark@ == job_mark(slug@),
            space@ == " "@,
            newline@ == "\n"@,
            out@ == records_before(views(lines@), slug@, i as int),
        decreases lines@.len() - i,
    {
        assert(views(lines@)[i as int] == lines@[i as int]@);
        if starts_with(&lines[i], &key) {
            extend(&mut out, &lines[i]);
            extend(&mut out, &space);
            extend(&mut out, &mark);
            extend(&mut out, &newline);
        }
        i += 1;
    }
    string_of(&out)
}

/// The first `upto` lines of the list without those of the post `slug`,
/// one behind the other.
pub open spec fn kept_before(lines: Seq<Seq<char>>, slug: Seq<char>, upto: int) -> Seq<char>
    decreases upto,
{
    if upto <= 0 || upto > lines.len() {
        Seq::empty()
    } else if ends_in(lines[upto - 1], job_mark(slug)) {
        kept_before(lines, slug, upto - 1)
    } else {
        kept_before(lines, slug, upto - 1) + lines[upto - 1]
    }
}

/// The list of jobs without the lines of the post `slug`.
pub fn clean_jobs_list(content: &str, slug: &str) -> (r: String)
    ensures
        r@ == kept_before(lines_of(content@), slug@, lines_of(content@).len() as int),
{
    let lines = split_lines(&chars_of(content));
    let mark = make_mark(slug);
    let mut out: Vec<char> = Vec::new();
    let mut i: usize = 0;
    while i < lines.len()
        invariant
            i <= lines@.len(),
            views(lines@) == lines_of(content@),
            mark@ == job_mark(slug@),
            out@ == kept_before(views(lines@), slug@, i as int),
        decreases lines@.len() - i,
    {
        assert(views(lines@)[i as int] == lines@[i as int]@);
        if !ends_with(&lines[i], &mark) {
            extend(&mut out, &lines[i]);
        }
        i += 1;
    }
    string_of(&out)
}

/// The number of the job that a line of the list names: its second word.
pub open spec fn job_number_of(line: Seq<char>) -> Option<Seq<char>> {
    let second = word_end(line, word_start(line, 0));
    if has_word(line, second) {
        Some(word_at(line, second))
    } else {
        None
    }
}

/// The numbers of the jobs of the post `slug` among the first `upto` lines
/// of the list; `None` where one of its lines names no job.
pub open spec fn job_numbers_before(lines: Seq<Seq<char>>, slug: Seq<char>, upto: int) -> Option<
    Seq<Seq<char>>,
>
    decreases upto,
{
    if upto <= 0 || upto > lines.len() {
        Some(Seq::empty())
    } else {
        match job_numbers_before(lines, slug, upto - 1) {
            None => None,
            Some(numbers) => if !ends_in(lines[upto - 1], job_mark(slug)) {
                Some(numbers)
            } else {
                match job_number_of(lines[upto - 1]) {
                    Some(number) => Some(numbers.push(number)),
                    None => None,
                }
            },
        }
    }
}

proof fn lemma_numbers_stay_none(lines: Seq<Seq<char>>, slug: Seq<char>, from: int, upto: int)
    requires
        0 <= from <= upto <= lines.len(),
        job_numbers_before(lines, slug, from) is None,
    ensures
        job_numbers_before(lines, slug, upto) is None,
    decreases upto - from,
{
    if from < upto {
        lemma_numbers_stay_none(lines, slug, from, upto - 1);
    }
}

/// What unscheduling a post comes to: the jobs to take from `at`, and the
/// list of jobs without them.
pub struct Unscheduled {
    pub job_numbers: Vec<String>,
    pub kept: String,
}

/// Takes the post `slug` off the list of jobs. `None` where a line of the
/// post names no job.
pub fn unschedule_publish(content: &str, slug: &str) -> (r: Option<Unscheduled>)
    ensures
        match r {
            Some(done) => {
                &&& job_numbers_before(
                    lines_of(content@),
                    slug@,
                    lines_of(content@).len() as int,
                ) == Some(string_views(done.job_numbers@))
                &&& done.kept@ == kept_before(
                    lines_of(content@),
                    slug@,
                    lines_of(content@).len() as int,
                )
            },
            None => job_numbers_before(lines_of(content@), slug@, lines_of(content@).len() as int)
                is None,
        },
{
    let lines = split_lines(&chars_of(content));
    let mark = make_mark(slug);
    let mut kept: Vec<char> = Vec::new();
    let mut job_numbers: Vec<String> = Vec::new();
    assert(string_views(job_numbers@) =~= Seq::<Seq<char>>::empty());
    let mut i: usize = 0;
    while i < lines.len()
        invariant
            i <= lines@.len(),
            views(lines@) == lines_of(content@),
            mark@ == job_mark(slug@),
            kept@ == kept_before(views(lines@), slug@, i as int),
            job_numbers_before(views(lines@), slug@, i as int) == Some(string_views(job_numbers@)),
        decreases lines@.len() - i,
    {
        assert(views(lines@)[i as int] == lines@[i as int]@);
        let line = &lines[i];
        if !ends_with(line, &mark) {
            extend(&mut kept, line);
        } else {
            let first = skip_to_word(line, 0);
            let second = skip_word(line, first);
            let start = skip_to_word(line, second);
            if start >= line.len() {
                proof {
                    lemma_numbers_stay_none(views(lines@), slug@, i + 1, lines@.len() as int);
                }
                return None;
            }
            let end = skip_word(line, start);
            let ghost done = string_views(job_numbers@);
            let number = string_of(&slice(line, start, end));
            job_numbers.push(number);
            assert(string_views(job_numbers@) =~= done.push(number@));
        }
        i += 1;
    }
    Some(Unscheduled { job_numbers, kept: string_of(&kept) })
}

} // verus!
