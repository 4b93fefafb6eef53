use emile::civil::{CivilDate, CivilDateTime, TimeOfDay};
use emile::config::SiteConfig;
use emile::post::FrontError;
use emile::publish::{
    create_draft, does_same_title_exist, draft_date, format_date, format_draft_date,
    format_utc_date, has_markdown_extension, is_publishable, post_file_name, publish_post,
    publishable_from,
    read_title, reslug, reslugged_name, schedule_post, ReslugError,
};

fn moment(year: i32, month: u32, day: u32, hour: u32, minute: u32, second: u32) -> CivilDateTime {
    CivilDateTime {
        date: CivilDate { year, month, day },
        time: TimeOfDay {
            hour,
            minute,
            second,
            nanosecond: 0,
        },
    }
}

#[test]
fn a_date_is_written_with_its_offset() {
    assert_eq!(
        format_date(moment(2024, 6, 27, 12, 0, 5), 7_200),
        Some("2024-06-27T12:00:05+02:00".to_string())
    );
    assert_eq!(
        format_date(moment(2024, 6, 27, 12, 0, 5), -16_200),
        Some("2024-06-27T12:00:05-04:30".to_string())
    );
    assert_eq!(
        format_date(moment(987, 1, 2, 3, 4, 5), 0),
        Some("0987-01-02T03:04:05+00:00".to_string())
    );
}

#[test]
fn a_date_that_is_none_is_not_written() {
    assert_eq!(format_date(moment(2024, 2, 30, 12, 0, 0), 0), None);
    assert_eq!(format_date(moment(2024, 6, 27, 24, 0, 0), 0), None);
    assert_eq!(format_date(moment(2024, 6, 27, 12, 0, 0), 86_400), None);
}

#[test]
fn a_time_of_utc_ends_in_z() {
    assert_eq!(
        format_utc_date(moment(2024, 6, 27, 12, 0, 5)),
        Some("2024-06-27T12:00:05Z".to_string())
    );
}

#[test]
fn the_date_of_a_draft_is_taken_as_utc() {
    assert_eq!(
        format_draft_date(moment(2024, 6, 27, 23, 30, 27), 3_600),
        Some("2024-06-28T00:30:27+01:00".to_string())
    );
}

#[test]
fn the_date_of_a_draft_is_shifted_by_years() {
    let today = CivilDateTime {
        date: CivilDate {
            year: 2024,
            month: 6,
            day: 27,
        },
        time: TimeOfDay {
            hour: 10,
            minute: 20,
            second: 30,
            nanosecond: 999,
        },
    };
    assert_eq!(draft_date(today, 0), Some(moment(2024, 6, 27, 10, 20, 27)));
    assert_eq!(draft_date(today, 10), Some(moment(2034, 6, 27, 10, 20, 27)));
    assert_eq!(draft_date(today, -24), Some(moment(2000, 6, 27, 10, 20, 27)));
    assert_eq!(draft_date(today, i32::MAX), None);
}

#[test]
fn a_leap_day_cannot_be_shifted_to_a_common_year() {
    let leap = moment(2024, 2, 29, 8, 0, 0);
    assert_eq!(draft_date(leap, 4), Some(moment(2028, 2, 29, 8, 0, 29)));
    assert_eq!(draft_date(leap, 1), None);
}

#[test]
fn a_draft_without_a_template_is_a_bare_frontmatter() {
    assert_eq!(
        create_draft(None, "My post", "2024-06-27T12:00:27+00:00"),
        Ok("+++\ntitle = \"My post\"\ndate = 2024-06-27T12:00:27+00:00\ndraft = true\n+++\n".to_string())
    );
}

#[test]
fn a_draft_from_a_template_keeps_the_template() {
    assert_eq!(
        create_draft(
            Some("+++\n[taxonomies]\ntags = []\n+++\n\nWrite here."),
            "My post",
            "2024-06-27T12:00:27+00:00"
        ),
        Ok("+++\ntitle = \"My post\"\ndate = 2024-06-27T12:00:27+00:00\ndraft = true\n[taxonomies]\ntags = []\n+++\n\nWrite here.\n".to_string())
    );
    assert_eq!(
        create_draft(Some("No frontmatter"), "My post", "now"),
        Err(FrontError::MissingDelimiter)
    );
}

#[test]
fn a_post_is_named_after_the_slug_of_its_title() {
    assert_eq!(post_file_name("My first post!"), "my-first-post.md");
    assert_eq!(post_file_name("Æúű--cool?"), "aeuu-cool.md");
    assert_eq!(post_file_name(""), ".md");
}

#[test]
fn a_published_post_has_a_new_date_and_is_no_draft() {
    let content = "+++\ntitle = \"A post\"\ndate = 2034-01-01T00:00:00+00:00\ndraft = true\n+++\nText.\n";
    assert_eq!(
        publish_post(content, "2024-06-27T12:00:00+02:00"),
        Ok("+++\ntitle = \"A post\"\ndate = 2024-06-27T12:00:00+02:00\n+++\nText.\n".to_string())
    );
    assert_eq!(publish_post("Text.", "now"), Err(FrontError::MissingDelimiter));
}

#[test]
fn a_scheduled_post_has_a_new_date_and_stays_a_draft() {
    let content = "+++\ntitle = \"A post\"\ndate = 2034-01-01T00:00:00+00:00\ndraft = true\n+++\nText.\n";
    assert_eq!(
        schedule_post(content, "2024-06-27T12:00:00+02:00"),
        Ok("+++\ntitle = \"A post\"\ndate = 2024-06-27T12:00:00+02:00\ndraft = true\n+++\nText.\n".to_string())
    );
    assert_eq!(schedule_post("+++\n", "now"), Err(FrontError::MissingDelimiter));
}

#[test]
fn a_post_is_published_from_drafts_or_schedule() {
    let cfg = SiteConfig::default();
    assert!(is_publishable("content/drafts/a.md", &cfg));
    assert!(is_publishable("content/drafts/schedule/a.md", &cfg));
    assert!(!is_publishable("content/posts/a.md", &cfg));
    assert!(!is_publishable("content/draftsman/a.md", &cfg));
}

#[test]
fn markdown_files_end_in_md() {
    assert!(has_markdown_extension("md"));
    assert!(has_markdown_extension("MD"));
    assert!(has_markdown_extension("Md"));
    assert!(has_markdown_extension("mD"));
    assert!(!has_markdown_extension("markdown"));
    assert!(!has_markdown_extension("m"));
    assert!(!has_markdown_extension(""));
    assert!(!has_markdown_extension("dm"));
}

#[test]
fn a_file_with_the_same_title_is_found() {
    let names = vec![
        "2023-01-01-other.md".to_string(),
        "2024-01-01-my-post.md".to_string(),
        "my-post.md".to_string(),
    ];
    assert_eq!(does_same_title_exist("my-post.md", &names), Some(1));
    assert_eq!(does_same_title_exist("other", &names), Some(0));
    assert_eq!(does_same_title_exist("", &names), Some(0));
    assert_eq!(does_same_title_exist("your-post.md", &names), None);
    assert_eq!(does_same_title_exist("2023-01-01-other.md.bak", &names), None);
    assert_eq!(does_same_title_exist("my-post.md", &Vec::new()), None);
}

#[test]
fn the_title_stands_between_the_first_and_the_last_quote() {
    assert_eq!(
        read_title("+++\ntitle = \"My \"quoted\" post\"\n+++\n"),
        Ok("My \"quoted\" post".to_string())
    );
    assert_eq!(
        read_title("title = \"first\"\ntitle = \"second\"\n"),
        Ok("first".to_string())
    );
    assert_eq!(read_title("+++\ndate = 2024-06-27\n+++\n"), Ok("".to_string()));
    assert_eq!(read_title("title = \"\"\n"), Ok("".to_string()));
}

#[test]
fn a_title_line_needs_two_quotes() {
    assert_eq!(read_title("title = My post\n"), Err(ReslugError::NoQuote));
    assert_eq!(read_title("title = \"My post\n"), Err(ReslugError::Corrupted));
    assert_eq!(reslugged_name("title = \"My post\n"), Err(ReslugError::Corrupted));
}

#[test]
fn a_post_is_renamed_after_its_title() {
    assert_eq!(
        reslugged_name("+++\ntitle = \"Hello, World!\"\n+++\n"),
        Ok("hello-world.md".to_string())
    );
    assert_eq!(reslugged_name("no title here"), Ok(".md".to_string()));
}

#[test]
fn files_whose_name_begins_with_a_dash_are_renamed() {
    assert!(reslug("-my-post.md"));
    assert!(reslug("-"));
    assert!(!reslug("my-post.md"));
    assert!(!reslug(""));
}

#[test]
fn a_post_under_either_directory_may_be_published() {
    assert!(publishable_from(true, false));
    assert!(publishable_from(false, true));
    assert!(publishable_from(true, true));
    assert!(!publishable_from(false, false));
}

#[test]
fn the_calendar_is_the_gregorian_one() {
    let at_noon = |year: i32, month: u32, day: u32| moment(year, month, day, 12, 0, 0);
    for (year, month, day) in [
        (2024, 1, 31),
        (2024, 2, 29),
        (2023, 2, 28),
        (2000, 2, 29),
        (2024, 4, 30),
        (2024, 12, 31),
        (0, 2, 29),
        (-4, 2, 29),
        (262_142, 12, 31),
        (-262_143, 1, 1),
    ] {
        assert!(draft_date(at_noon(year, month, day), 0).is_some());
    }
    for (year, month, day) in [
        (2023, 2, 29),
        (1900, 2, 29),
        (2100, 2, 29),
        (-100, 2, 29),
        (2024, 2, 30),
        (2024, 4, 31),
        (2024, 6, 31),
        (2024, 9, 31),
        (2024, 11, 31),
        (2024, 1, 32),
        (2024, 0, 1),
        (2024, 13, 1),
        (2024, 1, 0),
        (262_143, 1, 1),
        (-262_144, 12, 31),
    ] {
        assert!(draft_date(at_noon(year, month, day), 0).is_none());
    }
}
