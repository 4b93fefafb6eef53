//! Posts for Bluesky: the record of a post, and the facets that mark the
//! links and hashtags in its text.

use vstd::prelude::*;
use crate::outside::{
    find_matches, groups_view, matches_view, parse_url, regex_matches, url_of, Span, SpanView,
};
use crate::social::Lang;
use crate::text::{chars_of, slice, string_of};

verus! {

/// What a link in a text looks like. The first group is the link.
pub const URL_PATTERN: &'static str =
    "[$|\\W](https?:\\/\\/(www\\.)?[-a-zA-Z0-9@:%._\\+~#=]{1,256}\\.[a-zA-Z0-9()]{1,6}\\b([-a-zA-Z0-9()@:%_\\+.~#?&//=]*[-a-zA-Z0-9@%_\\+~#//=])?)";

/// What a hashtag in a text looks like. The first group is the hashtag.
pub const TAG_PATTERN: &'static str = "(?:^|\\s)(#[^\\d\\s]\\S*)";

/// What the address of a created post looks like. The first group is the
/// author's identifier, the second the key of the record.
pub const POST_URI_PATTERN: &'static str =
    "at://(did:plc:.+)/app\\.bsky\\.feed\\.post/([[:alnum:]]+)";

/// The kind of record that a post is.
pub const POST_KIND: &'static str = "app.bsky.feed.post";

/// The kind of feature that a link is.
pub const LINK_KIND: &'static str = "app.bsky.richtext.facet#link";

/// The kind of feature that a hashtag is.
pub const TAG_KIND: &'static str = "app.bsky.richtext.facet#tag";

/// Where a facet stands in the text, in bytes.
pub struct Index {
    pub byte_start: usize,
    pub byte_end: usize,
}

/// The kind of a feature, with its name.
pub enum FeatureType {
    Link(&'static str),
    Hashtag(&'static str),
}

impl FeatureType {
    /// The kind of a link.
    pub fn link() -> (r: FeatureType)
        ensures
            r matches FeatureType::Link(name) && name@ == LINK_KIND@,
    {
        FeatureType::Link(LINK_KIND)
    }

    /// The kind of a hashtag.
    pub fn hashtag() -> (r: FeatureType)
        ensures
            r matches FeatureType::Hashtag(name) && name@ == TAG_KIND@,
    {
        FeatureType::Hashtag(TAG_KIND)
    }
}

/// What a feature points to.
pub enum FeatureData {
    Uri(String),
    Tag(String),
}

/// What a stretch of text is: a link or a hashtag.
pub struct Feature {
    pub kind: FeatureType,
    pub data: FeatureData,
}

/// A stretch of the text of a post, with what it is.
pub struct Facet {
    pub index: Index,
    pub features: Vec<Feature>,
}

/// `facet` marks `span` as a link to `uri`.
pub open spec fn is_link_facet(facet: Facet, span: SpanView, uri: Seq<char>) -> bool {
    &&& facet.index.byte_start == span.start
    &&& facet.index.byte_end == span.end
    &&& facet.features@.len() == 1
    &&& facet.features@[0].kind matches FeatureType::Link(name)
    &&& name@ == LINK_KIND@
    &&& facet.features@[0].data matches FeatureData::Uri(target)
    &&& target@ == uri
}

/// `facet` marks `span` as the hashtag that the span reads behind its `#`.
pub open spec fn is_tag_facet(facet: Facet, span: SpanView) -> bool {
    &&& facet.index.byte_start == span.start
    &&& facet.index.byte_end == span.end
    &&& facet.features@.len() == 1
    &&& facet.features@[0].kind matches FeatureType::Hashtag(name)
    &&& name@ == TAG_KIND@
    &&& facet.features@[0].data matches FeatureData::Tag(tag)
    &&& tag@ == behind_first(span.text)
}

/// The first group of each match: what the patterns of this module mark.
pub open spec fn first_groups(found: Seq<Seq<Option<SpanView>>>) -> Option<Seq<SpanView>> {
    if forall|i: int| 0 <= i < found.len() ==> has_group(#[trigger] found[i], 1) {
        Some(Seq::new(found.len(), |i: int| found[i][1]->0))
    } else {
        None
    }
}

/// The match has taken part with its group number `n`.
pub open spec fn has_group(groups: Seq<Option<SpanView>>, n: int) -> bool {
    0 <= n < groups.len() && groups[n] is Some
}

/// The stretches of `text` that the first group of `pattern` matches;
/// `None` where the pattern cannot be used, or a match has no first group.
pub open spec fn marked(pattern: Seq<char>, text: Seq<char>) -> Option<Seq<SpanView>> {
    match regex_matches(pattern, text) {
        None => None,
        Some(found) => first_groups(found),
    }
}

fn find_marked(pattern: &str, text: &str) -> (r: Option<Vec<Span>>)
    ensures
        match r {
            Some(spans) => marked(pattern@, text@) == Some(span_views(spans@)),
            None => marked(pattern@, text@) is None,
        },
{
    let found = match find_matches(pattern, text) {
        None => {
            return None;
        },
        Some(found) => found,
    };
    let ghost all = matches_view(found@);
    let mut spans: Vec<Span> = Vec::new();
    let mut i: usize = 0;
    while i < found.len()
        invariant
            i <= found@.len(),
            spans@.len() == i,
            all == matches_view(found@),
            regex_matches(pattern@, text@) == Some(all),
            forall|k: int| 0 <= k < i ==> has_group(#[trigger] all[k], 1),
            forall|k: int| 0 <= k < i ==> (#[trigger] spans@[k])@ == all[k][1]->0,
        decreases found@.len() - i,
    {
        let groups = &found[i];
        assert(all[i as int] == groups_view(groups@));
        if groups.len() < 2 {
            assert(!has_group(all[i as int], 1));
            return None;
        }
        match &groups[1] {
            None => {
                assert(!has_group(all[i as int], 1));
                return None;
            },
            Some(span) => {
                assert(all[i as int][1] == Some(span@));
                spans.push(Span { start: span.start, end: span.end, text: span.text.clone() });
            },
        }
        i += 1;
    }
    proof {
        assert(span_views(spans@) =~= Seq::new(all.len(), |i: int| all[i][1]->0));
    }
    Some(spans)
}

/// The views of a list of spans.
pub open spec fn span_views(spans: Seq<Span>) -> Seq<SpanView> {
    Seq::new(spans.len(), |i: int| spans[i]@)
}

/// `text` without its first character.
pub open spec fn behind_first(text: Seq<char>) -> Seq<char> {
    if text.len() > 0 {
        text.subrange(1, text.len() as int)
    } else {
        text
    }
}

/// The facets for the links in `s`, in the order of the text; `None` where
/// a marked link cannot be read as a URL.
pub fn parse_urls(s: &str) -> (r: Option<Vec<Facet>>)
    ensures
        match r {
            Some(facets) => {
                &&& marked(URL_PATTERN@, s@) matches Some(spans)
                &&& facets@.len() == spans.len()
                &&& forall|i: int| 0 <= i < spans.len() ==> url_of((#[trigger] spans[i]).text) is Some
                &&& forall|i: int|
                    0 <= i < spans.len() ==> is_link_facet(
                        #[trigger] facets@[i],
                        spans[i],
                        url_of(spans[i].text)->0,
                    )
            },
            None => marked(URL_PATTERN@, s@) matches Some(spans) ==> exists|i: int|
                0 <= i < spans.len() && url_of((#[trigger] spans[i]).text) is None,
        },
{
    let spans = match find_marked(URL_PATTERN, s) {
        None => {
            return None;
        },
        Some(spans) => spans,
    };
    let ghost views = span_views(spans@);
    let mut facets: Vec<Facet> = Vec::new();
    let mut i: usize = 0;
    while i < spans.len()
        invariant
            i <= spans@.len(),
            facets@.len() == i,
            views == span_views(spans@),
            marked(URL_PATTERN@, s@) == Some(views),
            forall|k: int| 0 <= k < i ==> url_of((#[trigger] views[k]).text) is Some,
            forall|k: int|
                0 <= k < i ==> is_link_facet(
                    #[trigger] facets@[k],
                    views[k],
                    url_of(views[k].text)->0,
                ),
        decreases spans@.len() - i,
    {
        assert(views[i as int] == spans@[i as int]@);
        match parse_url(spans[i].text.as_str()) {
            None => {
                assert(url_of(views[i as int].text) is None);
                return None;
            },
            Some(url) => {
                let ghost done = facets@;
                let mut features: Vec<Feature> = Vec::new();
                features.push(Feature { kind: FeatureType::link(), data: FeatureData::Uri(url) });
                let facet = Facet {
                    index: Index { byte_start: spans[i].start, byte_end: spans[i].end },
                    features,
                };
                assert(url_of(views[i as int].text) == Some(url@));
                assert(is_link_facet(facet, views[i as int], url@));
                facets.push(facet);
                assert forall|k: int| 0 <= k < i + 1 implies is_link_facet(
                    #[trigger] facets@[k],
                    views[k],
                    url_of(views[k].text)->0,
                ) by {
                    if k < i {
                        assert(facets@[k] == done[k]);
                    }
                }
            },
        }
        i += 1;
    }
    Some(facets)
}

/// The facets for the hashtags in `s`, in the order of the text.
pub fn parse_tags(s: &str) -> (r: Option<Vec<Facet>>)
    ensures
        match r {
            Some(facets) => {
                &&& marked(TAG_PATTERN@, s@) matches Some(spans)
                &&& facets@.len() == spans.len()
                &&& forall|i: int|
                    0 <= i < spans.len() ==> is_tag_facet(#[trigger] facets@[i], spans[i])
            },
            None => marked(TAG_PATTERN@, s@) is None,
        },
{
    let spans = match find_marked(TAG_PATTERN, s) {
        None => {
            return None;
        },
        Some(spans) => spans,
    };
    let ghost views = span_views(spans@);
    let mut facets: Vec<Facet> = Vec::new();
    let mut i: usize = 0;
    while i < spans.len()
        invariant
            i <= spans@.len(),
            facets@.len() == i,
            views == span_views(spans@),
            forall|k: int| 0 <= k < i ==> is_tag_facet(#[trigger] facets@[k], views[k]),
        decreases spans@.len() - i,
    {
        assert(views[i as int] == spans@[i as int]@);
        let marked_text = chars_of(spans[i].text.as_str());
        let tag = if marked_text.len() > 0 {
            slice(&marked_text, 1, marked_text.len())
        } else {
            Vec::new()
        };
        assert(tag@ =~= behind_first(views[i as int].text));
        let ghost done = facets@;
        let mut features: Vec<Feature> = Vec::new();
        features.push(
            Feature { kind: FeatureType::hashtag(), data: FeatureData::Tag(string_of(&tag)) },
        );
        let facet = Facet {
            index: Index { byte_start: spans[i].start, byte_end: spans[i].end },
            features,
        };
        assert(is_tag_facet(facet, views[i as int]));
        facets.push(facet);
        assert forall|k: int| 0 <= k < i + 1 implies is_tag_facet(
            #[trigger] facets@[k],
            views[k],
        ) by {
            if k < i {
                assert(facets@[k] == done[k]);
            }
        }
        i += 1;
    }
    Some(facets)
}

/// `facets` are the facets of `text`: those of its links, then those of
/// its hashtags, each in the order of the text.
pub open spec fn are_facets_of(facets: Seq<Facet>, text: Seq<char>) -> bool {
    &&& marked(URL_PATTERN@, text) matches Some(links)
    &&& marked(TAG_PATTERN@, text) matches Some(tags)
    &&& facets.len() == links.len() + tags.len()
    &&& forall|i: int| 0 <= i < links.len() ==> url_of((#[trigger] links[i]).text) is Some
    &&& forall|i: int|
        0 <= i < links.len() ==> is_link_facet(#[trigger] facets[i], links[i], url_of(links[i].text)->0)
    &&& forall|i: int|
        0 <= i < tags.len() ==> is_tag_facet(facets[links.len() + i], #[trigger] tags[i])
}

/// The text has facets: its links and hashtags can be marked, and each
/// link read as a URL.
pub open spec fn has_facets(text: Seq<char>) -> bool {
    &&& marked(URL_PATTERN@, text) matches Some(links)
    &&& marked(TAG_PATTERN@, text) is Some
    &&& forall|i: int| 0 <= i < links.len() ==> url_of((#[trigger] links[i]).text) is Some
}

/// The facets of a text: those of its links, then those of its hashtags.
pub fn parse_facets(s: &str) -> (r: Option<Vec<Facet>>)
    ensures
        match r {
            Some(facets) => are_facets_of(facets@, s@),
            None => !has_facets(s@),
        },
{
    let mut facets = match parse_urls(s) {
        None => {
            return None;
        },
        Some(facets) => facets,
    };
    let mut tags = match parse_tags(s) {
        None => {
            return None;
        },
        Some(tags) => tags,
    };
    let ghost links = facets@;
    let ghost hashtags = tags@;
    facets.append(&mut tags);
    proof {
        let link_spans = marked(URL_PATTERN@, s@)->0;
        let tag_spans = marked(TAG_PATTERN@, s@)->0;
        assert forall|i: int| 0 <= i < link_spans.len() implies is_link_facet(
            #[trigger] facets@[i],
            link_spans[i],
            url_of(link_spans[i].text)->0,
        ) by {
            assert(facets@[i] == links[i]);
        }
        assert forall|i: int| 0 <= i < tag_spans.len() implies is_tag_facet(
            facets@[link_spans.len() + i],
            #[trigger] tag_spans[i],
        ) by {
            assert(facets@[link_spans.len() + i] == hashtags[i]);
        }
    }
    Some(facets)
}

/// A post, as it is created.
pub struct Record {
    pub kind: &'static str,
    pub text: String,
    pub created_at: String,
    pub langs: Vec<String>,
    pub facets: Option<Vec<Facet>>,
}

impl Record {
    /// The post with the given text, in the given language, created at the
    /// given time. Its links and hashtags are marked by facets; a text
    /// without them has none. `None` where the text has no facets to mark.
    pub fn new(text: String, lang: &Lang, created_at: String) -> (r: Option<Record>)
        ensures
            match r {
                None => !has_facets(text@),
                Some(record) => {
                    &&& record.kind@ == POST_KIND@
                    &&& record.text == text
                    &&& record.created_at == created_at
                    &&& record.langs@.len() == 1
                    &&& record.langs@[0]@ == lang@
                    &&& match record.facets {
                        Some(facets) => facets@.len() > 0 && are_facets_of(facets@, text@),
                        None => are_facets_of(Seq::empty(), text@),
                    }
                },
            },
    {
        let facets = match parse_facets(text.as_str()) {
            None => {
                return None;
            },
            Some(facets) => facets,
        };
        let mut langs: Vec<String> = Vec::new();
        langs.push(lang.0.clone());
        let marked_up = if facets.len() == 0 {
            assert(facets@ =~= Seq::<Facet>::empty());
            None
        } else {
            Some(facets)
        };
        Some(Record { kind: POST_KIND, text, created_at, langs, facets: marked_up })
    }
}

/// The request that creates a post.
pub struct RecordCreation {
    pub repo: String,
    pub collection: &'static str,
    pub record: Record,
}

impl RecordCreation {
    /// The request that creates `record` in the repository of the author
    /// `did`.
    pub fn new(did: &str, record: Record) -> (r: RecordCreation)
        ensures
            r.repo@ == did@,
            r.collection@ == POST_KIND@,
            r.record == record,
    {
        RecordCreation { repo: did.to_owned(), collection: POST_KIND, record }
    }
}

/// The address of a method of a server.
pub open spec fn method_url(server: Seq<char>, method: Seq<char>) -> Seq<char> {
    "https://"@ + server + "/xrpc/"@ + method
}

fn make_method_url(server: &str, method: &str) -> (r: String)
    ensures
        r@ == method_url(server@, method@),
{
    let mut url = "https://".to_owned();
    url.append(server);
    url.append("/xrpc/");
    url.append(method);
    url
}

/// Where a session is opened.
pub fn create_session_url(server: &str) -> (r: String)
    ensures
        r@ == method_url(server@, "com.atproto.server.createSession"@),
{
    make_method_url(server, "com.atproto.server.createSession")
}

/// Where a post is created.
pub fn create_record_url(server: &str) -> (r: String)
    ensures
        r@ == method_url(server@, "com.atproto.repo.createRecord"@),
{
    make_method_url(server, "com.atproto.repo.createRecord")
}

/// Where the profile of an author is read.
pub fn get_profile_url(server: &str) -> (r: String)
    ensures
        r@ == method_url(server@, "app.bsky.actor.getProfile"@),
{
    make_method_url(server, "app.bsky.actor.getProfile")
}

/// The address of a post for its readers.
pub fn post_url(handle: &str, record_id: &str) -> (r: String)
    ensures
        r@ == "https://bsky.app/profile/"@ + handle@ + "/post/"@ + record_id@,
{
    let mut url = "https://bsky.app/profile/".to_owned();
    url.append(handle);
    url.append("/post/");
    url.append(record_id);
    url
}

/// The author and the key of a created post.
pub struct PostLocator {
    pub did: String,
    pub record_id: String,
}

/// What the address of a created post names: the first and the second
/// group of the first match of the pattern of such addresses.
pub open spec fn located(uri: Seq<char>) -> Option<(Seq<char>, Seq<char>)> {
    match regex_matches(POST_URI_PATTERN@, uri) {
        None => None,
        Some(found) => if found.len() > 0 && has_group(found[0], 1) && has_group(found[0], 2) {
            Some((found[0][1]->0.text, found[0][2]->0.text))
        } else {
            None
        },
    }
}

/// Reads the author and the key of a created post from its address.
pub fn locate_post(uri: &str) -> (r: Option<PostLocator>)
    ensures
        match r {
            Some(locator) => located(uri@) == Some((locator.did@, locator.record_id@)),
            None => located(uri@) is None,
        },
{
    let found = match find_matches(POST_URI_PATTERN, uri) {
        None => {
            return None;
        },
        Some(found) => found,
    };
    if found.len() == 0 {
        return None;
    }
    let groups = &found[0];
    assert(matches_view(found@)[0] == groups_view(groups@));
    if groups.len() < 3 {
        return None;
    }
    match (&groups[1], &groups[2]) {
        (Some(did), Some(key)) => {
            assert(groups_view(groups@)[1] == Some(did@));
            assert(groups_view(groups@)[2] == Some(key@));
            Some(PostLocator { did: did.text.clone(), record_id: key.text.clone() })
        },
        _ => {
            assert(groups_view(groups@)[1] is None || groups_view(groups@)[2] is None);
            None
        },
    }
}

} // verus!
