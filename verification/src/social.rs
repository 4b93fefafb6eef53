//! The status announcing a post on social networks: what it says, in which
//! language, under which hashtags.

use vstd::prelude::*;
use crate::config::{setting_value, SocialApi, SocialCfg, TagLang};
use crate::outside::{
    is_slug, path_file_stem, path_renamed, path_stem_of, path_with_file_name,
    read_toml_string_list, slug_of, slugify, toml_string_list,
};
use crate::text::{
    chars_of, has_second_field, lines_of, reads_at, remove_char, replace, replaced,
    second_field, split_lines, starts_with, string_of, string_views, trim, trimmed, views,
};

verus! {

/// The title of a post.
pub struct Title(pub String);

/// The language a status is written in.
pub struct Lang(pub String);

/// The hashtags of a status, without their `#`.
pub struct TagsList(pub Vec<String>);

/// The text of a status.
pub struct StatusContent(pub String);

impl View for Title {
    type V = Seq<char>;

    open spec fn view(&self) -> Seq<char> {
        self.0@
    }
}

impl View for Lang {
    type V = Seq<char>;

    open spec fn view(&self) -> Seq<char> {
        self.0@
    }
}

impl View for TagsList {
    type V = Seq<Seq<char>>;

    open spec fn view(&self) -> Seq<Seq<char>> {
        string_views(self.0@)
    }
}

impl View for StatusContent {
    type V = Seq<char>;

    open spec fn view(&self) -> Seq<char> {
        self.0@
    }
}

impl Lang {
    /// The language, as text.
    pub fn as_str(&self) -> (r: &str)
        ensures
            r@ == self@,
    {
        self.0.as_str()
    }

    /// The language, as text.
    pub fn to_string(&self) -> (r: String)
        ensures
            r@ == self@,
    {
        self.0.clone()
    }
}

impl StatusContent {
    /// The status, as text.
    pub fn as_str(&self) -> (r: &str)
        ensures
            r@ == self@,
    {
        self.0.as_str()
    }
}

/// Why no status can be made for a post.
#[derive(Debug, PartialEq, Eq)]
pub enum SocialError {
    /// A `title` line that holds no `=`.
    NoTitle,
    /// A tag whose slug is empty, so that no hashtag can be made of it.
    UnusableTag,
    /// A template path without a file name.
    NoFileName,
}

/// The upper-case form of a letter from `a` to `z`; any other character
/// unchanged.
pub open spec fn upper(c: char) -> char {
    if 'a' <= c <= 'z' {
        ((c as u8) - 32) as char
    } else {
        c
    }
}

fn to_upper(c: char) -> (r: char)
    ensures
        r == upper(c),
{
    if 'a' <= c && c <= 'z' {
        ((c as u8) - 32) as char
    } else {
        c
    }
}

/// The first `upto` characters of a slug as part of a hashtag: the dashes
/// dropped, the first letter of each word in upper case.
pub open spec fn camel_before(slug: Seq<char>, upto: int) -> Seq<char>
    decreases upto,
{
    if upto <= 0 || upto > slug.len() {
        Seq::empty()
    } else if slug[upto - 1] == '-' {
        camel_before(slug, upto - 1)
    } else if upto == 1 || slug[upto - 2] == '-' {
        camel_before(slug, upto - 1).push(upper(slug[upto - 1]))
    } else {
        camel_before(slug, upto - 1).push(slug[upto - 1])
    }
}

/// A slug as a hashtag: `my-first-post` gives `MyFirstPost`.
pub open spec fn camel_case(slug: Seq<char>) -> Seq<char> {
    camel_before(slug, slug.len() as int)
}

/// The hashtag that stands for a slug.
pub fn hashtag_of_slug(slug: &str) -> (r: String)
    requires
        is_slug(slug@),
        slug@.len() > 0,
    ensures
        r@ == camel_case(slug@),
{
    let text = chars_of(slug);
    let mut out: Vec<char> = Vec::new();
    let mut i: usize = 0;
    while i < text.len()
        invariant
            i <= text@.len(),
            out@ == camel_before(text@, i as int),
        decreases text@.len() - i,
    {
        let c = text[i];
        if c != '-' {
            if i == 0 || text[i - 1] == '-' {
                out.push(to_upper(c));
            } else {
                out.push(c);
            }
        }
        i += 1;
    }
    string_of(&out)
}

/// The hashtag of a tag; `None` for a tag whose slug is empty.
pub fn hashtag(tag: &str) -> (r: Option<String>)
    ensures
        match r {
            Some(text) => slug_of(tag@).len() > 0 && text@ == camel_case(slug_of(tag@)),
            None => slug_of(tag@).len() == 0,
        },
{
    let slug = slugify(tag);
    if slug.as_str().unicode_len() == 0 {
        None
    } else {
        Some(hashtag_of_slug(slug.as_str()))
    }
}

/// The language of the first of `langs`, from `from` on, whose tag is among
/// `tags`; `fallback` if there is none.
pub open spec fn language_among(
    langs: Seq<TagLang>,
    tags: Seq<Seq<char>>,
    from: int,
    fallback: Seq<char>,
) -> Seq<char>
    decreases langs.len() - from,
{
    if from < 0 || from >= langs.len() {
        fallback
    } else if tags.contains(langs[from].tag@) {
        langs[from].lang@
    } else {
        language_among(langs, tags, from + 1, fallback)
    }
}

/// The language of a status for a post with the given tags.
pub open spec fn language_for(tags: Seq<Seq<char>>, cfg: SocialCfg) -> Seq<char> {
    match cfg.tag_lang {
        None => cfg.default_lang@,
        Some(langs) => language_among(langs@, tags, 0, cfg.default_lang@),
    }
}

fn holds(list: &Vec<String>, text: &String) -> (r: bool)
    ensures
        r == string_views(list@).contains(text@),
{
    let mut i: usize = 0;
    while i < list.len()
        invariant
            i <= list@.len(),
            forall|k: int| 0 <= k < i ==> string_views(list@)[k] != text@,
        decreases list@.len() - i,
    {
        if list[i] == *text {
            assert(string_views(list@)[i as int] == text@);
            return true;
        }
        i += 1;
    }
    false
}

/// The language of a status for a post with the given tags: that of the
/// first configured pair whose tag the post carries, else the default.
pub fn choose_language(tags: &Vec<String>, cfg: &SocialCfg) -> (r: String)
    ensures
        r@ == language_for(string_views(tags@), *cfg),
{
    match &cfg.tag_lang {
        None => cfg.default_lang.clone(),
        Some(langs) => {
            let mut i: usize = 0;
            while i < langs.len()
                invariant
                    i <= langs@.len(),
                    cfg.tag_lang == Some(*langs),
                    language_among(langs@, string_views(tags@), 0, cfg.default_lang@)
                        == language_among(langs@, string_views(tags@), i as int, cfg.default_lang@),
                decreases langs@.len() - i,
            {
                if holds(tags, &langs[i].tag) {
                    let found = langs[i].lang.clone();
                    assert(language_among(
                        langs@,
                        string_views(tags@),
                        i as int,
                        cfg.default_lang@,
                    ) == langs@[i as int].lang@);
                    return found;
                }
                i += 1;
            }
            cfg.default_lang.clone()
        },
    }
}

/// The hashtags of the first `upto` tags: none for a filtered tag; `None`
/// if a tag that is not filtered has an empty slug.
pub open spec fn hashtags_before(raw: Seq<Seq<char>>, filtered: Seq<Seq<char>>, upto: int) -> Option<
    Seq<Seq<char>>,
>
    decreases upto,
{
    if upto <= 0 || upto > raw.len() {
        Some(Seq::empty())
    } else {
        match hashtags_before(raw, filtered, upto - 1) {
            None => None,
            Some(done) => if filtered.contains(raw[upto - 1]) {
                Some(done)
            } else if slug_of(raw[upto - 1]).len() == 0 {
                None
            } else {
                Some(done.push(camel_case(slug_of(raw[upto - 1]))))
            },
        }
    }
}

/// The hashtags of a post's tags.
pub open spec fn hashtags_of(raw: Seq<Seq<char>>, filtered: Seq<Seq<char>>) -> Option<
    Seq<Seq<char>>,
> {
    hashtags_before(raw, filtered, raw.len() as int)
}

/// The hashtags of a post's tags, those of `filtered` left out.
pub fn make_hashtags(raw: &Vec<String>, filtered: &Vec<String>) -> (r: Option<Vec<String>>)
    ensures
        match r {
            Some(tags) => hashtags_of(string_views(raw@), string_views(filtered@)) == Some(
                string_views(tags@),
            ),
            None => hashtags_of(string_views(raw@), string_views(filtered@)) is None,
        },
{
    let mut out: Vec<String> = Vec::new();
    let mut i: usize = 0;
    while i < raw.len()
        invariant
            i <= raw@.len(),
            hashtags_before(string_views(raw@), string_views(filtered@), i as int) == Some(
                string_views(out@),
            ),
        decreases raw@.len() - i,
    {
        let ghost done = string_views(out@);
        assert(string_views(raw@)[i as int] == raw@[i as int]@);
        if !holds(filtered, &raw[i]) {
            match hashtag(raw[i].as_str()) {
                Some(tag) => {
                    out.push(tag);
                    assert(string_views(out@) =~= done.push(tag@));
                },
                None => {
                    proof {
                        lemma_hashtags_stay_none(
                            string_views(raw@),
                            string_views(filtered@),
                            i + 1,
                            raw@.len() as int,
                        );
                    }
                    return None;
                },
            }
        }
        i += 1;
    }
    Some(out)
}

proof fn lemma_hashtags_stay_none(
    raw: Seq<Seq<char>>,
    filtered: Seq<Seq<char>>,
    from: int,
    upto: int,
)
    requires
        0 <= from <= upto <= raw.len(),
        hashtags_before(raw, filtered, from) is None,
    ensures
        hashtags_before(raw, filtered, upto) is None,
    decreases upto - from,
{
    if from < upto {
        lemma_hashtags_stay_none(raw, filtered, from, upto - 1);
    }
}

/// What the frontmatter of a post says of its status.
pub struct FrontFields {
    pub title: Seq<char>,
    pub lang: Seq<char>,
    pub tags: Seq<Seq<char>>,
}

/// The fields after one more line. A `title` line sets the title to its
/// value. A `tags` line sets the language, and the hashtags if it can be
/// read as a list.
pub open spec fn fields_with_line(fields: FrontFields, line: Seq<char>, cfg: SocialCfg) -> Result<
    FrontFields,
    SocialError,
> {
    if reads_at(line, 0, "title"@) {
        if has_second_field(line, '=') {
            Ok(FrontFields { title: setting_value(line), ..fields })
        } else {
            Err(SocialError::NoTitle)
        }
    } else if reads_at(line, 0, "tags"@) {
        match toml_string_list(line, "tags"@) {
            None => Ok(FrontFields { lang: cfg.default_lang@, ..fields }),
            Some(raw) => match hashtags_of(raw, string_views(cfg.filtered_tag@)) {
                None => Err(SocialError::UnusableTag),
                Some(tags) => Ok(
                    FrontFields { title: fields.title, lang: language_for(raw, cfg), tags },
                ),
            },
        }
    } else {
        Ok(fields)
    }
}

/// The fields after the first `upto` lines, each taken trimmed.
pub open spec fn fields_after(lines: Seq<Seq<char>>, cfg: SocialCfg, upto: int) -> Result<
    FrontFields,
    SocialError,
>
    decreases upto,
{
    if upto <= 0 || upto > lines.len() {
        Ok(FrontFields { title: Seq::empty(), lang: Seq::empty(), tags: Seq::empty() })
    } else {
        match fields_after(lines, cfg, upto - 1) {
            Err(e) => Err(e),
            Ok(fields) => fields_with_line(fields, trimmed(lines[upto - 1]), cfg),
        }
    }
}

/// What `content` says of its status.
pub open spec fn fields_of(content: Seq<char>, cfg: SocialCfg) -> Result<FrontFields, SocialError> {
    fields_after(lines_of(content), cfg, lines_of(content).len() as int)
}

/// Reads the title, the language and the hashtags of a post from its text.
///
/// Without a `tags` line the language is empty; with one that cannot be
/// read it is the default language.
pub fn extract_title_lang_tags(content: &str, config: &SocialCfg) -> (r: Result<
    (Title, Lang, TagsList),
    SocialError,
>)
    ensures
        match r {
            Ok((title, lang, tags)) => fields_of(content@, *config) == Ok::<
                FrontFields,
                SocialError,
            >(FrontFields { title: title@, lang: lang@, tags: tags@ }),
            Err(e) => fields_of(content@, *config) == Err::<FrontFields, SocialError>(e),
        },
{
    let mut title = String::new();
    let mut lang = String::new();
    let mut tags: Vec<String> = Vec::new();
    let lines = split_lines(&chars_of(content));
    let title_key = chars_of("title");
    let tags_key = chars_of("tags");
    assert(string_views(tags@) =~= Seq::<Seq<char>>::empty());
    let mut i: usize = 0;
    while i < lines.len()
        invariant
            i <= lines@.len(),
            views(lines@) == lines_of(content@),
            title_key@ == "title"@,
            tags_key@ == "tags"@,
            fields_after(views(lines@), *config, i as int) == Ok::<FrontFields, SocialError>(
                FrontFields { title: title@, lang: lang@, tags: string_views(tags@) },
            ),
        decreases lines@.len() - i,
    {
        let line = trim(&lines[i]);
        assert(views(lines@)[i as int] == lines@[i as int]@);
        if starts_with(&line, &title_key) {
            match second_field(&line, '=') {
                Some(field) => {
                    title = string_of(&trim(&remove_char(&field, '"')));
                },
                None => {
                    proof {
                        lemma_fields_stay_err(views(lines@), *config, i + 1, lines@.len() as int);
                    }
                    return Err(SocialError::NoTitle);
                },
            }
        } else if starts_with(&line, &tags_key) {
            let text = string_of(&line);
            match read_toml_string_list(text.as_str(), "tags") {
                None => {
                    lang = config.default_lang.clone();
                },
                Some(raw) => {
                    assert(string_views(raw@) =~= Seq::new(raw@.len(), |k: int| raw@[k]@));
                    lang = choose_language(&raw, config);
                    match make_hashtags(&raw, &config.filtered_tag) {
                        Some(made) => {
                            tags = made;
                        },
                        None => {
                            proof {
                                lemma_fields_stay_err(
                                    views(lines@),
                                    *config,
                                    i + 1,
                                    lines@.len() as int,
                                );
                            }
                            return Err(SocialError::UnusableTag);
                        },
                    }
                },
            }
        }
        i += 1;
    }
    Ok((Title(title), Lang(lang), TagsList(tags)))
}

proof fn lemma_fields_stay_err(lines: Seq<Seq<char>>, cfg: SocialCfg, from: int, upto: int)
    requires
        0 <= from <= upto <= lines.len(),
        fields_after(lines, cfg, from) is Err,
    ensures
        fields_after(lines, cfg, upto) == fields_after(lines, cfg, from),
    decreases upto - from,
{
    if from < upto {
        lemma_fields_stay_err(lines, cfg, from, upto - 1);
    }
}

/// Whether the template at the configured path is the one to read: it is
/// when the file exists and the status is in the default language.
/// Otherwise the template named after the language is read.
pub fn uses_plain_template(template_exists: bool, social: &SocialCfg, cur_lang: &Lang) -> (plain: bool)
    ensures
        plain == (template_exists && cur_lang@ == social.default_lang@),
{
    template_exists && cur_lang.0 == social.default_lang
}

/// The file name of the template for a language: `stem.lang.txt`.
pub open spec fn lang_file_name_of(stem: Seq<char>, lang: Seq<char>) -> Seq<char> {
    stem + "."@ + lang + ".txt"@
}

/// The file name of the template for a language.
pub fn lang_file_name(stem: &str, lang: &Lang) -> (r: String)
    ensures
        r@ == lang_file_name_of(stem@, lang@),
{
    let mut name = stem.to_owned();
    name.append(".");
    name.append(lang.as_str());
    name.append(".txt");
    name
}

/// The path of the template for a language, beside the template at `path`:
/// `social.txt` and `fr` give `social.fr.txt`. A path without a file name
/// has none.
pub fn path_with_lang(path: &str, lang: &Lang) -> (r: Result<String, SocialError>)
    ensures
        match path_stem_of(path@) {
            None => r == Err::<String, SocialError>(SocialError::NoFileName),
            Some(stem) => r matches Ok(renamed) && renamed@ == path_renamed(
                path@,
                lang_file_name_of(stem, lang@),
            ),
        },
{
    match lang_file_name_from(path_file_stem(path), lang) {
        Err(e) => Err(e),
        Ok(name) => Ok(path_with_file_name(path, name.as_str())),
    }
}

/// The file name of the template for a language, from the stem of the file
/// name of the plain template: `stem.lang.txt`. A template without a file
/// name has none for a language either.
pub fn lang_file_name_from(stem: Option<String>, lang: &Lang) -> (r: Result<String, SocialError>)
    ensures
        match stem {
            None => r == Err::<String, SocialError>(SocialError::NoFileName),
            Some(stem) => r matches Ok(name) && name@ == lang_file_name_of(stem@, lang@),
        },
{
    match stem {
        None => Err(SocialError::NoFileName),
        Some(stem) => Ok(lang_file_name(stem.as_str(), lang)),
    }
}

/// The address of a post: `base/posts/stem/`.
pub open spec fn post_link_of(base_url: Seq<char>, stem: Seq<char>) -> Seq<char> {
    base_url + "/posts/"@ + stem + "/"@
}

/// The address of the post whose file has the given stem.
pub fn post_link(base_url: &str, stem: &str) -> (r: String)
    ensures
        r@ == post_link_of(base_url@, stem@),
{
    let mut link = base_url.to_owned();
    link.append("/posts/");
    link.append(stem);
    link.append("/");
    link
}

/// The first `upto` hashtags as they stand in a status: each behind a `#`
/// and before a space, `rust` followed by `#RustLang` as well.
pub open spec fn tags_text_before(tags: Seq<Seq<char>>, upto: int) -> Seq<char>
    decreases upto,
{
    if upto <= 0 || upto > tags.len() {
        Seq::empty()
    } else {
        let tag = tags[upto - 1];
        let one = "#"@ + tag + " "@;
        if tag == "rust"@ {
            tags_text_before(tags, upto - 1) + one + "#RustLang "@
        } else {
            tags_text_before(tags, upto - 1) + one
        }
    }
}

/// The hashtags as they stand in a status.
pub open spec fn tags_text(tags: Seq<Seq<char>>) -> Seq<char> {
    tags_text_before(tags, tags.len() as int)
}

/// A status template filled in: `{title}`, `{link}` and `{tags}` replaced,
/// in this order, and the whole trimmed.
pub open spec fn filled_status(
    template: Seq<char>,
    title: Seq<char>,
    link: Seq<char>,
    tags: Seq<Seq<char>>,
) -> Seq<char> {
    trimmed(
        replaced(
            replaced(replaced(template, "{title}"@, title), "{link}"@, link),
            "{tags}"@,
            tags_text(tags),
        ),
    )
}

/// Fills the template of a status for the post whose published file has
/// the stem `dest_stem`.
pub fn create_toot_content(
    template: &str,
    dest_stem: &str,
    cfg: &SocialCfg,
    title: &Title,
    tags: &TagsList,
) -> (r: StatusContent)
    ensures
        r@ == filled_status(template@, title@, post_link_of(cfg.base_url@, dest_stem@), tags@),
{
    let status = replace(&chars_of(template), &chars_of("{title}"), &chars_of(title.0.as_str()));
    let link = post_link(cfg.base_url.as_str(), dest_stem);
    let status = replace(&status, &chars_of("{link}"), &chars_of(link.as_str()));
    let mut tags_list = String::new();
    let rust = "rust".to_owned();
    let mut i: usize = 0;
    while i < tags.0.len()
        invariant
            i <= tags.0@.len(),
            rust@ == "rust"@,
            tags_list@ == tags_text_before(tags@, i as int),
        decreases tags.0@.len() - i,
    {
        let ghost before = tags_list@;
        assert(tags@[i as int] == tags.0@[i as int]@);
        tags_list.append("#");
        tags_list.append(tags.0[i].as_str());
        tags_list.append(" ");
        if tags.0[i] == rust {
            tags_list.append("#RustLang ");
            assert(tags_list@ =~= before + ("#"@ + tags@[i as int] + " "@) + "#RustLang "@);
        } else {
            assert(tags_list@ =~= before + ("#"@ + tags@[i as int] + " "@));
        }
        i += 1;
    }
    let status = replace(&status, &chars_of("{tags}"), &chars_of(tags_list.as_str()));
    StatusContent(string_of(&trim(&status)))
}

/// Fills the template of the link back to the statuses: `{links}` replaced.
pub fn create_toot_link(template: &str, links: &str) -> (r: String)
    ensures
        r@ == replaced(template@, "{links}"@, links@),
{
    string_of(&replace(&chars_of(template), &chars_of("{links}"), &chars_of(links)))
}

/// Where a status was posted.
pub struct SocialLink {
    pub api: SocialApi,
    pub url: String,
}

/// The first `upto` links without those of the network `api`.
pub open spec fn links_without_before(links: Seq<SocialLink>, api: SocialApi, upto: int) -> Seq<
    SocialLink,
>
    decreases upto,
{
    if upto <= 0 || upto > links.len() {
        Seq::empty()
    } else if links[upto - 1].api == api {
        links_without_before(links, api, upto - 1)
    } else {
        links_without_before(links, api, upto - 1).push(links[upto - 1])
    }
}

/// The links with one more: a network has one link, so that a link of the
/// same network leaves the list, and the new one stands at its end.
pub open spec fn links_with(links: Seq<SocialLink>, link: SocialLink) -> Seq<SocialLink> {
    links_without_before(links, link.api, links.len() as int).push(link)
}

/// Records where a status was posted on a network, in place of what was
/// recorded for that network before.
pub fn record_link(links: &mut Vec<SocialLink>, api: SocialApi, url: String)
    ensures
        final(links)@ == links_with(old(links)@, SocialLink { api, url }),
{
    let mut kept: Vec<SocialLink> = Vec::new();
    let mut i: usize = 0;
    while i < links.len()
        invariant
            i <= links@.len(),
            links@ == old(links)@,
            kept@ == links_without_before(links@, api, i as int),
        decreases links@.len() - i,
    {
        if links[i].api != api {
            kept.push(SocialLink { api: links[i].api, url: links[i].url.clone() });
        }
        i += 1;
    }
    kept.push(SocialLink { api, url });
    *links = kept;
}

/// The name of a network.
pub open spec fn api_name(api: SocialApi) -> Seq<char> {
    match api {
        SocialApi::Mastodon => "Mastodon"@,
        SocialApi::Bluesky => "Bluesky"@,
    }
}

/// The first `upto` links as they stand in a post: each as `[name](url)`,
/// with `, ` between them.
pub open spec fn links_text_before(links: Seq<SocialLink>, upto: int) -> Seq<char>
    decreases upto,
{
    if upto <= 0 || upto > links.len() {
        Seq::empty()
    } else {
        let before = links_text_before(links, upto - 1);
        let one = "["@ + api_name(links[upto - 1].api) + "]("@ + links[upto - 1].url@ + ")"@;
        if before.len() == 0 {
            one
        } else {
            before + ", "@ + one
        }
    }
}

/// The links to the statuses of a post, as they stand in the post.
pub fn links_text(links: &Vec<SocialLink>) -> (r: String)
    ensures
        r@ == links_text_before(links@, links@.len() as int),
{
    let mut text = String::new();
    let mut i: usize = 0;
    while i < links.len()
        invariant
            i <= links@.len(),
            text@ == links_text_before(links@, i as int),
        decreases links@.len() - i,
    {
        let ghost before = text@;
        let started = text.as_str().unicode_len() > 0;
        if started {
            text.append(", ");
        }
        text.append("[");
        text.append(links[i].api.to_string().as_str());
        text.append("](");
        text.append(links[i].url.as_str());
        text.append(")");
        proof {
            let one = "["@ + api_name(links@[i as int].api) + "]("@ + links@[i as int].url@ + ")"@;
            if started {
                assert(text@ =~= before + ", "@ + one);
            } else {
                assert(text@ =~= one);
            }
        }
        i += 1;
    }
    text
}

/// A post with the links to its statuses in it: each occurrence of the
/// link tag replaced by the filled link template.
pub fn push_to_social(cfg: &SocialCfg, content: &str, toot_link: &str) -> (r: String)
    ensures
        r@ == replaced(content@, cfg.link_tag@, toot_link@),
{
    string_of(&replace(&chars_of(content), &chars_of(cfg.link_tag.as_str()), &chars_of(toot_link)))
}

} // verus!
