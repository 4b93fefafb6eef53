//! Site configuration: what the configuration file may leave out, and what
//! stands in for it.

use vstd::prelude::*;
use crate::civil::TimeOfDay;
use crate::text::{
    chars_of, has_second_field, lines_of, reads_at, remove_char, second_field, second_field_of,
    split_lines, starts_with, string_of, trim, trimmed, views, without,
};

verus! {


/// The configuration of a site.
#[derive(Debug)]
pub struct SiteConfig {
    /// Where new drafts are created, relative to the root of the site.
    pub drafts_creation_dir: String,
    /// Years added to the date of a new draft, to keep it on top of the list.
    pub drafts_year_shift: i32,
    /// Template a new draft is made from.
    pub draft_template: String,
    /// Where published posts go.
    pub publish_dest: String,
    /// Where posts wait for their date.
    pub schedule_dir: String,
    /// Offset from UTC of the dates of posts, in seconds east.
    pub timezone: i32,
    /// Debounce window for filesystem events, in seconds.
    pub debouncing: u64,
    /// Time of day used when a schedule gives none.
    pub default_sch_time: TimeOfDay,
    pub social: Option<SocialCfg>,
}

/// A social network, by the interface it is posted to.
#[non_exhaustive]
#[derive(Debug, Copy, Clone, PartialEq, Eq, Structural, Hash, PartialOrd, Ord)]
pub enum SocialApi {
    Mastodon,
    Bluesky,
}

impl SocialApi {
    /// The name of the network.
    pub fn to_string(&self) -> (r: String)
        ensures
            r@ == match *self {
                SocialApi::Mastodon => "Mastodon"@,
                SocialApi::Bluesky => "Bluesky"@,
            },
    {
        match self {
            SocialApi::Mastodon => "Mastodon".to_owned(),
            SocialApi::Bluesky => "Bluesky".to_owned(),
        }
    }
}

/// How new posts are announced on social networks.
#[derive(Debug, Clone)]
pub struct SocialCfg {
    /// Template of the status posted for a new post.
    pub social_template: String,
    pub default_lang: String,
    pub base_url: String,
    /// Tags that set the language of the status.
    pub tag_lang: Option<Vec<TagLang>>,
    /// Tags left out of the status.
    pub filtered_tag: Vec<String>,
    /// Template of the link back to the status.
    pub link_template: String,
    /// The text in a post that the link replaces.
    pub link_tag: String,
    pub instances: Vec<SocialInstance>,
}

/// A server that new posts are announced on.
#[derive(Debug, Clone)]
pub struct SocialInstance {
    /// Host of the server.
    pub server: String,
    pub api: SocialApi,
    /// Environment variable holding the access token.
    pub token_var: String,
    /// Environment variable holding the user's handle.
    pub handle_var: Option<String>,
}

/// A tag that sets the language of a status.
#[derive(Debug, Clone)]
pub struct TagLang {
    pub tag: String,
    pub lang: String,
}

/// The social section of the configuration file: what it may leave out
/// is optional.
#[derive(Debug, Clone)]
pub struct SocialCfgBuilder {
    pub social_template: Option<String>,
    pub tag_lang: Option<Vec<TagLang>>,
    pub filtered_tag: Vec<String>,
    pub link_template: Option<String>,
    pub link_tag: Option<String>,
    pub instances: Vec<SocialInstance>,
}

/// The configuration file: what it may leave out is optional.
#[derive(Debug, Clone)]
pub struct SiteConfigBuilder {
    pub drafts_creation_dir: Option<String>,
    pub drafts_year_shift: Option<i32>,
    pub draft_template: Option<String>,
    pub publish_dest: Option<String>,
    pub schedule_dir: Option<String>,
    /// Offset from UTC, in whole hours east.
    pub timezone: Option<i32>,
    pub debouncing: Option<u64>,
    pub default_sch_time: Option<TimeOfDay>,
    pub social: Option<SocialCfgBuilder>,
}

/// Why a configuration cannot be used.
#[derive(Debug, PartialEq, Eq)]
pub enum ConfigError {
    /// A social section that names no server.
    NoSocialServer,
}

/// `given` if there is one, else `fallback`.
pub open spec fn text_or(given: Option<String>, fallback: Seq<char>) -> Seq<char> {
    match given {
        Some(text) => text@,
        None => fallback,
    }
}

fn or_text(given: Option<String>, fallback: &str) -> (r: String)
    ensures
        r@ == text_or(given, fallback@),
{
    match given {
        Some(text) => text,
        None => fallback.to_owned(),
    }
}

/// An offset of `hours` whole hours is less than a day.
pub open spec fn is_offset_hours(hours: int) -> bool {
    -24 < hours < 24
}

impl SocialCfgBuilder {
    /// The social section with what it leaves out filled in.
    pub fn resolve(self, default_lang: String, base_url: String) -> (r: SocialCfg)
        ensures
            r.social_template@ == text_or(self.social_template, "social.txt"@),
            r.default_lang == default_lang,
            r.base_url == base_url,
            r.tag_lang == self.tag_lang,
            r.filtered_tag == self.filtered_tag,
            r.link_template@ == text_or(self.link_template, "social_link.txt"@),
            r.link_tag@ == text_or(self.link_tag, "{$ emile_social $}"@),
            r.instances == self.instances,
    {
        SocialCfg {
            social_template: or_text(self.social_template, "social.txt"),
            default_lang,
            base_url,
            tag_lang: self.tag_lang,
            filtered_tag: self.filtered_tag,
            link_template: or_text(self.link_template, "social_link.txt"),
            link_tag: or_text(self.link_tag, "{$ emile_social $}"),
            instances: self.instances,
        }
    }
}

impl SiteConfigBuilder {
    /// Whether `resolve` accepts the time zone.
    pub fn has_valid_timezone(&self) -> (r: bool)
        ensures
            r == (self.timezone matches Some(hours) ==> is_offset_hours(hours as int)),
    {
        match self.timezone {
            Some(hours) => -24 < hours && hours < 24,
            None => true,
        }
    }

    /// The configuration with what the file leaves out filled in.
    /// `default_lang` and `base_url` come from the site generator's own
    /// configuration. A social section without a server is refused.
    pub fn resolve(self, default_lang: String, base_url: String) -> (r: Result<
        SiteConfig,
        ConfigError,
    >)
        requires
            self.timezone matches Some(hours) ==> is_offset_hours(hours as int),
        ensures
            match r {
                Err(e) => {
                    &&& e == ConfigError::NoSocialServer
                    &&& self.social matches Some(social)
                    &&& social.instances@.len() == 0
                },
                Ok(cfg) => {
                    &&& cfg.drafts_creation_dir@ == text_or(
                        self.drafts_creation_dir,
                        "content/drafts"@,
                    )
                    &&& cfg.drafts_year_shift == match self.drafts_year_shift {
                        Some(shift) => shift,
                        None => 0,
                    }
                    &&& cfg.draft_template@ == text_or(self.draft_template, "draft.txt"@)
                    &&& cfg.publish_dest@ == text_or(self.publish_dest, "content/posts"@)
                    &&& cfg.schedule_dir@ == text_or(self.schedule_dir, "content/drafts/scheduled"@)
                    &&& cfg.timezone == match self.timezone {
                        Some(hours) => hours * 3600,
                        None => 0,
                    }
                    &&& cfg.debouncing == match self.debouncing {
                        Some(seconds) => seconds,
                        None => 2,
                    }
                    &&& cfg.default_sch_time == match self.default_sch_time {
                        Some(time) => time,
                        None => (TimeOfDay { hour: 12, minute: 0, second: 0, nanosecond: 0 }),
                    }
                    &&& match self.social {
                        None => cfg.social is None,
                        Some(social) => {
                            &&& social.instances@.len() > 0
                            &&& cfg.social matches Some(resolved)
                            &&& resolved.social_template@ == text_or(
                                social.social_template,
                                "social.txt"@,
                            )
                            &&& resolved.default_lang == default_lang
                            &&& resolved.base_url == base_url
                            &&& resolved.tag_lang == social.tag_lang
                            &&& resolved.filtered_tag == social.filtered_tag
                            &&& resolved.link_template@ == text_or(
                                social.link_template,
                                "social_link.txt"@,
                            )
                            &&& resolved.link_tag@ == text_or(social.link_tag, "{$ emile_social $}"@)
                            &&& resolved.instances == social.instances
                        },
                    }
                },
            },
    {
        let social = match self.social {
            Some(builder) => {
                if builder.instances.len() == 0 {
                    return Err(ConfigError::NoSocialServer);
                }
                Some(builder.resolve(default_lang, base_url))
            },
            None => None,
        };
        Ok(
            SiteConfig {
                drafts_creation_dir: or_text(self.drafts_creation_dir, "content/drafts"),
                drafts_year_shift: match self.drafts_year_shift {
                    Some(shift) => shift,
                    None => 0,
                },
                draft_template: or_text(self.draft_template, "draft.txt"),
                publish_dest: or_text(self.publish_dest, "content/posts"),
                schedule_dir: or_text(self.schedule_dir, "content/drafts/scheduled"),
                timezone: match self.timezone {
                    Some(hours) => hours * 3600,
                    None => 0,
                },
                debouncing: match self.debouncing {
                    Some(seconds) => seconds,
                    None => 2,
                },
                default_sch_time: match self.default_sch_time {
                    Some(time) => time,
                    None => TimeOfDay { hour: 12, minute: 0, second: 0, nanosecond: 0 },
                },
                social,
            },
        )
    }
}

impl Default for SiteConfig {
    /// The configuration used when no configuration file can be read.
    fn default() -> (r: SiteConfig)
        ensures
            r.drafts_creation_dir@ == "content/drafts"@,
            r.drafts_year_shift == 0,
            r.draft_template@ == "draft.html"@,
            r.publish_dest@ == "content/posts"@,
            r.schedule_dir@ == "content/drafts/schedule"@,
            r.timezone == 0,
            r.debouncing == 2,
            r.default_sch_time == (TimeOfDay { hour: 12, minute: 0, second: 0, nanosecond: 0 }),
            r.social is None,
    {
        SiteConfig {
            drafts_creation_dir: "content/drafts".to_owned(),
            drafts_year_shift: 0,
            draft_template: "draft.html".to_owned(),
            publish_dest: "content/posts".to_owned(),
            schedule_dir: "content/drafts/schedule".to_owned(),
            timezone: 0,
            debouncing: 2,
            default_sch_time: TimeOfDay { hour: 12, minute: 0, second: 0, nanosecond: 0 },
            social: None,
        }
    }
}

/// The value that a line of the form `key = "value"` gives: the second of
/// its fields at `=`, without quotes, trimmed.
pub open spec fn setting_value(line: Seq<char>) -> Seq<char> {
    trimmed(without(second_field_of(line, '='), '"'))
}

/// The trimmed line begins with `key` and holds a `=`.
pub open spec fn sets(line: Seq<char>, key: Seq<char>) -> bool {
    reads_at(trimmed(line), 0, key) && has_second_field(trimmed(line), '=')
}

/// The value that the last of the first `upto` lines to set `key` gives it.
pub open spec fn setting_in(lines: Seq<Seq<char>>, key: Seq<char>, upto: int) -> Option<Seq<char>>
    decreases upto,
{
    if upto <= 0 || upto > lines.len() {
        None
    } else if sets(lines[upto - 1], key) {
        Some(setting_value(trimmed(lines[upto - 1])))
    } else {
        setting_in(lines, key, upto - 1)
    }
}

/// The value that `content` gives `key`, or `fallback` where no line sets it.
pub open spec fn setting_or(content: Seq<char>, key: Seq<char>, fallback: Seq<char>) -> Seq<char> {
    match setting_in(lines_of(content), key, lines_of(content).len() as int) {
        Some(value) => value,
        None => fallback,
    }
}

/// The default language and the base URL that the site generator's
/// configuration names: `en` and `localhost` where it names none, or where
/// there is no configuration.
pub fn get_config_from_zola(content: Option<&str>) -> (r: (String, String))
    ensures
        match content {
            None => r.0@ == "en"@ && r.1@ == "localhost"@,
            Some(text) => {
                &&& r.0@ == setting_or(text@, "default_language"@, "en"@)
                &&& r.1@ == setting_or(text@, "base_url"@, "localhost"@)
            },
        },
{
    let mut lang = "en".to_owned();
    let mut base = "localhost".to_owned();
    let text = match content {
        None => {
            return (lang, base);
        },
        Some(text) => text,
    };
    let lines = split_lines(&chars_of(text));
    let lang_key = chars_of("default_language");
    let base_key = chars_of("base_url");
    proof {
        reveal_strlit("default_language");
        reveal_strlit("base_url");
    }
    let mut i: usize = 0;
    while i < lines.len()
        invariant
            i <= lines@.len(),
            views(lines@) == lines_of(text@),
            lang_key@ == "default_language"@,
            base_key@ == "base_url"@,
            "default_language"@.len() == 16,
            "base_url"@.len() == 8,
            "default_language"@[0] == 'd',
            "base_url"@[0] == 'b',
            lang@ == match setting_in(views(lines@), lang_key@, i as int) {
                Some(value) => value,
                None => "en"@,
            },
            base@ == match setting_in(views(lines@), base_key@, i as int) {
                Some(value) => value,
                None => "localhost"@,
            },
        decreases lines@.len() - i,
    {
        let line = trim(&lines[i]);
        assert(views(lines@)[i as int] == lines@[i as int]@);
        if starts_with(&line, &lang_key) {
            assert(!reads_at(line@, 0, base_key@)) by {
                if reads_at(line@, 0, base_key@) {
                    assert(line@.subrange(0, 16)[0] == 'd');
                    assert(line@.subrange(0, 8)[0] == 'b');
                }
            }
            match second_field(&line, '=') {
                Some(field) => {
                    lang = string_of(&trim(&remove_char(&field, '"')));
                },
                None => {},
            }
        } else if starts_with(&line, &base_key) {
            match second_field(&line, '=') {
                Some(field) => {
                    base = string_of(&trim(&remove_char(&field, '"')));
                },
                None => {},
            }
        }
        i += 1;
    }
    (lang, base)
}

} // verus!
