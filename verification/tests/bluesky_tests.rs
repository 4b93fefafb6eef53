use emile::bluesky::{
    create_record_url, create_session_url, get_profile_url, locate_post, parse_facets,
    parse_tags, parse_urls, post_url, Facet, FeatureData, FeatureType, Record, RecordCreation,
};
use emile::social::Lang;

fn link(facet: &Facet) -> (usize, usize, String) {
    assert_eq!(facet.features.len(), 1);
    assert!(matches!(
        facet.features[0].kind,
        FeatureType::Link("app.bsky.richtext.facet#link")
    ));
    match &facet.features[0].data {
        FeatureData::Uri(uri) => (facet.index.byte_start, facet.index.byte_end, uri.clone()),
        FeatureData::Tag(_) => panic!("a link holds a URI"),
    }
}

fn tag(facet: &Facet) -> (usize, usize, String) {
    assert_eq!(facet.features.len(), 1);
    assert!(matches!(
        facet.features[0].kind,
        FeatureType::Hashtag("app.bsky.richtext.facet#tag")
    ));
    match &facet.features[0].data {
        FeatureData::Tag(tag) => (facet.index.byte_start, facet.index.byte_end, tag.clone()),
        FeatureData::Uri(_) => panic!("a hashtag holds a tag"),
    }
}

#[test]
fn feature_types_are_named() {
    assert!(matches!(
        FeatureType::link(),
        FeatureType::Link("app.bsky.richtext.facet#link")
    ));
    assert!(matches!(
        FeatureType::hashtag(),
        FeatureType::Hashtag("app.bsky.richtext.facet#tag")
    ));
}

#[test]
fn links_are_marked_by_their_bytes() {
    let facets = parse_urls("New post: https://example.com/posts/my-post/ is out").unwrap();
    assert_eq!(facets.len(), 1);
    assert_eq!(
        link(&facets[0]),
        (10, 44, "https://example.com/posts/my-post/".to_string())
    );
}

#[test]
fn a_link_is_written_as_the_parser_reads_it() {
    let facets = parse_urls("See https://EXAMPLE.com and (http://www.example.org/a?b=c).").unwrap();
    assert_eq!(facets.len(), 2);
    assert_eq!(link(&facets[0]), (4, 23, "https://example.com/".to_string()));
    assert_eq!(
        link(&facets[1]),
        (29, 57, "http://www.example.org/a?b=c".to_string())
    );
}

#[test]
fn a_link_at_the_very_start_is_not_marked() {
    assert_eq!(parse_urls("https://example.com").map(|f| f.len()), Some(0));
    assert_eq!(parse_urls("").map(|f| f.len()), Some(0));
}

#[test]
fn bytes_are_counted_not_characters() {
    let facets = parse_urls("é https://example.com/").unwrap();
    assert_eq!(link(&facets[0]), (3, 23, "https://example.com/".to_string()));
}

#[test]
fn hashtags_are_marked_without_their_sign() {
    let facets = parse_tags("#Rust is fun #StaticSites\n#Zola").unwrap();
    assert_eq!(facets.len(), 3);
    assert_eq!(tag(&facets[0]), (0, 5, "Rust".to_string()));
    assert_eq!(tag(&facets[1]), (13, 25, "StaticSites".to_string()));
    assert_eq!(tag(&facets[2]), (26, 31, "Zola".to_string()));
}

#[test]
fn a_hashtag_begins_a_word_and_not_with_a_digit() {
    let facets = parse_tags("a#b #1st # #ok#still").unwrap();
    assert_eq!(facets.len(), 1);
    assert_eq!(tag(&facets[0]), (11, 20, "ok#still".to_string()));
}

#[test]
fn facets_are_links_then_hashtags() {
    let facets = parse_facets("#Rust at https://example.com/ #Zola").unwrap();
    assert_eq!(facets.len(), 3);
    assert_eq!(link(&facets[0]), (9, 29, "https://example.com/".to_string()));
    assert_eq!(tag(&facets[1]), (0, 5, "Rust".to_string()));
    assert_eq!(tag(&facets[2]), (30, 35, "Zola".to_string()));
}

#[test]
fn a_record_holds_its_facets() {
    let record = Record::new(
        "Hello #Rust".to_string(),
        &Lang("en".to_string()),
        "2024-06-27T12:00:00Z".to_string(),
    )
    .unwrap();
    assert_eq!(record.kind, "app.bsky.feed.post");
    assert_eq!(record.text, "Hello #Rust");
    assert_eq!(record.created_at, "2024-06-27T12:00:00Z");
    assert_eq!(record.langs, vec!["en".to_string()]);
    let facets = record.facets.expect("the text holds a hashtag");
    assert_eq!(facets.len(), 1);
    assert_eq!(tag(&facets[0]), (6, 11, "Rust".to_string()));
}

#[test]
fn a_record_without_links_or_hashtags_has_no_facets() {
    let record = Record::new(
        "Hello".to_string(),
        &Lang("fr".to_string()),
        "2024-06-27T12:00:00Z".to_string(),
    )
    .unwrap();
    assert!(record.facets.is_none());
    let creation = RecordCreation::new("did:plc:abc", record);
    assert_eq!(creation.repo, "did:plc:abc");
    assert_eq!(creation.collection, "app.bsky.feed.post");
    assert_eq!(creation.record.text, "Hello");
}

#[test]
fn a_link_that_is_no_url_leaves_the_text_without_facets() {
    let text = "See http://example.com:99999999/ now";
    assert!(parse_urls(text).is_none());
    assert!(parse_facets(text).is_none());
    assert!(Record::new(text.to_string(), &Lang("en".to_string()), "now".to_string()).is_none());
}

#[test]
fn methods_are_addressed_on_the_server() {
    assert_eq!(
        create_session_url("bsky.social"),
        "https://bsky.social/xrpc/com.atproto.server.createSession"
    );
    assert_eq!(
        create_record_url("bsky.social"),
        "https://bsky.social/xrpc/com.atproto.repo.createRecord"
    );
    assert_eq!(
        get_profile_url("bsky.social"),
        "https://bsky.social/xrpc/app.bsky.actor.getProfile"
    );
    assert_eq!(
        post_url("me.bsky.social", "3kabc"),
        "https://bsky.app/profile/me.bsky.social/post/3kabc"
    );
}

#[test]
fn a_created_post_names_its_author_and_its_key() {
    let locator = locate_post("at://did:plc:abc123/app.bsky.feed.post/3kxyz789").unwrap();
    assert_eq!(locator.did, "did:plc:abc123");
    assert_eq!(locator.record_id, "3kxyz789");
    assert!(locate_post("at://did:web:abc/app.bsky.feed.post/3k").is_none());
    assert!(locate_post("").is_none());
}
