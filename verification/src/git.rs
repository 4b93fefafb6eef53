//! Commands carried by the message of the last commit.

use vstd::prelude::*;
use crate::text::{
    chars_of, find_from, index_from, is_ascii_space, is_ascii_whitespace, last_index_before,
    lemma_index_from, lemma_last_index_before, rfind, same_text, slice, string_of, trim, trimmed,
};

verus! {

/// What a commit asks for.
#[derive(Debug, PartialEq, Eq)]
pub enum BlogCommand {
    BlogBuild,
    BlogSched,
    BlogUnsched,
}

/// A command, with the date and the post it concerns.
#[derive(Debug, PartialEq, Eq)]
pub struct LogCommand {
    pub command: BlogCommand,
    pub date: Option<String>,
    pub slug: Option<String>,
}

/// A command, with its texts as character sequences.
pub struct LogCommandView {
    pub command: BlogCommand,
    pub date: Option<Seq<char>>,
    pub slug: Option<Seq<char>>,
}

impl View for LogCommand {
    type V = LogCommandView;

    open spec fn view(&self) -> LogCommandView {
        LogCommandView {
            command: self.command,
            date: match self.date {
                Some(d) => Some(d@),
                None => None,
            },
            slug: match self.slug {
                Some(s) => Some(s@),
                None => None,
            },
        }
    }
}

/// Why a log message is no command.
#[derive(Debug, PartialEq, Eq)]
pub enum LogError {
    /// The schedule command does not hold its date between two quotes.
    Malformed,
    /// The first word names no command.
    UnknownCommand,
}

/// Index of the first character of `s` at or after `from` that is not ASCII
/// whitespace; the length of `s` if there is none.
pub open spec fn word_start(s: Seq<char>, from: int) -> int
    decreases s.len() - from,
{
    if from < 0 || from >= s.len() {
        s.len() as int
    } else if !is_ascii_space(s[from]) {
        from
    } else {
        word_start(s, from + 1)
    }
}

/// Index of the first ASCII whitespace of `s` at or after `from`; the
/// length of `s` if there is none.
pub open spec fn word_end(s: Seq<char>, from: int) -> int
    decreases s.len() - from,
{
    if from < 0 || from >= s.len() {
        s.len() as int
    } else if is_ascii_space(s[from]) {
        from
    } else {
        word_end(s, from + 1)
    }
}

/// `log` holds a word at or after `from`.
pub open spec fn has_word(log: Seq<char>, from: int) -> bool {
    word_start(log, from) < log.len()
}

/// The first word of `log` at or after `from`.
pub open spec fn word_at(log: Seq<char>, from: int) -> Seq<char> {
    log.subrange(word_start(log, from), word_end(log, word_start(log, from)))
}

/// The inputs on which `parse_last_log` answers: a log with a first word;
/// for the schedule command one with a quote in it, for the unschedule
/// command one with a second word.
pub open spec fn is_log(log: Seq<char>) -> bool {
    &&& has_word(log, 0)
    &&& word_at(log, 0) == "blog_sched"@ ==> index_from(log, '"', 0) < log.len()
    &&& word_at(log, 0) == "blog_unsched"@ ==> has_word(log, word_end(log, word_start(log, 0)))
}

/// What a log message says.
///
/// The first word is the command. For `blog_sched` the date stands between
/// the first and the last quote, and the slug is what follows the last
/// quote, trimmed. For `blog_unsched` the slug is the second word.
pub open spec fn parsed_log(log: Seq<char>) -> Result<LogCommandView, LogError> {
    let command = word_at(log, 0);
    if command == "blog_build"@ {
        Ok(LogCommandView { command: BlogCommand::BlogBuild, date: None, slug: None })
    } else if command == "blog_sched"@ {
        let start = index_from(log, '"', 0);
        let end = last_index_before(log, '"', log.len() as int);
        if start >= end {
            Err(LogError::Malformed)
        } else {
            Ok(
                LogCommandView {
                    command: BlogCommand::BlogSched,
                    date: Some(log.subrange(start + 1, end)),
                    slug: Some(trimmed(log.subrange(end + 1, log.len() as int))),
                },
            )
        }
    } else if command == "blog_unsched"@ {
        Ok(
            LogCommandView {
                command: BlogCommand::BlogUnsched,
                date: None,
                slug: Some(trimmed(word_at(log, word_end(log, word_start(log, 0))))),
            },
        )
    } else {
        Err(LogError::UnknownCommand)
    }
}

pub(crate) fn skip_to_word(s: &Vec<char>, from: usize) -> (r: usize)
    requires
        from <= s@.len(),
    ensures
        r == word_start(s@, from as int),
        from <= r <= s@.len(),
{
    let mut i: usize = from;
    while i < s.len() && is_ascii_whitespace(s[i])
        invariant
            from <= i <= s@.len(),
            word_start(s@, from as int) == word_start(s@, i as int),
        decreases s@.len() - i,
    {
        i += 1;
    }
    i
}

pub(crate) fn skip_word(s: &Vec<char>, from: usize) -> (r: usize)
    requires
        from <= s@.len(),
    ensures
        r == word_end(s@, from as int),
        from <= r <= s@.len(),
{
    let mut i: usize = from;
    while i < s.len() && !is_ascii_whitespace(s[i])
        invariant
            from <= i <= s@.len(),
            word_end(s@, from as int) == word_end(s@, i as int),
        decreases s@.len() - i,
    {
        i += 1;
    }
    i
}

/// Whether `log` is an input on which `parse_last_log` answers.
pub fn is_parsable_log(log: &str) -> (r: bool)
    ensures
        r == is_log(log@),
{
    let text = chars_of(log);
    let start = skip_to_word(&text, 0);
    if start >= text.len() {
        return false;
    }
    let end = skip_word(&text, start);
    let word = slice(&text, start, end);
    let sched = chars_of("blog_sched");
    let unsched = chars_of("blog_unsched");
    proof {
        reveal_strlit("blog_sched");
        reveal_strlit("blog_unsched");
        assert("blog_sched"@.len() != "blog_unsched"@.len());
    }
    if same_text(&word, &sched) {
        find_from(&text, '"', 0) < text.len()
    } else if same_text(&word, &unsched) {
        skip_to_word(&text, end) < text.len()
    } else {
        true
    }
}

/// Reads the command that a log message carries.
pub fn parse_last_log(log: &str) -> (r: Result<LogCommand, LogError>)
    requires
        is_log(log@),
    ensures
        match r {
            Ok(command) => parsed_log(log@) == Ok::<LogCommandView, LogError>(command@),
            Err(e) => parsed_log(log@) == Err::<LogCommandView, LogError>(e),
        },
{
    let text = chars_of(log);
    let start = skip_to_word(&text, 0);
    let end = skip_word(&text, start);
    let word = slice(&text, start, end);
    let build = chars_of("blog_build");
    let sched = chars_of("blog_sched");
    let unsched = chars_of("blog_unsched");
    if same_text(&word, &build) {
        Ok(LogCommand { command: BlogCommand::BlogBuild, date: None, slug: None })
    } else if same_text(&word, &sched) {
        let open = find_from(&text, '"', 0);
        proof {
            lemma_index_from(text@, '"', 0);
            lemma_last_index_before(text@, '"', text@.len() as int);
        }
        match rfind(&text, '"') {
            Some(close) => {
                if open >= close {
                    Err(LogError::Malformed)
                } else {
                    let date = slice(&text, open + 1, close);
                    let rest = slice(&text, close + 1, text.len());
                    let slug = trim(&rest);
                    Ok(
                        LogCommand {
                            command: BlogCommand::BlogSched,
                            date: Some(string_of(&date)),
                            slug: Some(string_of(&slug)),
                        },
                    )
                }
            },
            None => Err(LogError::Malformed),
        }
    } else if same_text(&word, &unsched) {
        let from = skip_to_word(&text, end);
        let to = skip_word(&text, from);
        let token = slice(&text, from, to);
        let slug = trim(&token);
        Ok(
            LogCommand {
                command: BlogCommand::BlogUnsched,
                date: None,
                slug: Some(string_of(&slug)),
            },
        )
    } else {
        Err(LogError::UnknownCommand)
    }
}

/// What is handed to git to record a publication: the files to add, and
/// the message of the commit.
pub struct PublishCommit {
    pub files: String,
    pub message: String,
}

/// What records the publication of the post `slug` under `dest_dir`: every
/// markdown file there, under a message naming the post between quotes.
pub fn update_remote(slug: &str, dest_dir: &str) -> (r: PublishCommit)
    ensures
        r.files@ == dest_dir@ + "*.md"@,
        r.message@ == "\"published "@ + slug@ + ".md\""@,
{
    let mut files = dest_dir.to_owned();
    files.append("*.md");
    let mut message = "\"published ".to_owned();
    message.append(slug);
    message.append(".md\"");
    PublishCommit { files, message }
}

} // verus!
