use emile::config::SiteConfig;
use emile::instant::Instant;
use emile::post::DateError;
use emile::watcher::{
    is_index_file, process_evt, route_for, watched_trees, FileState, Route, ScheduledFile,
    SiteWatcher,
};

fn at(seconds: i64) -> Instant {
    Instant::from_unix_seconds(seconds)
}

fn post(date: &str) -> String {
    format!("+++\ntitle = \"A post\"\ndate = {date}\n+++\nText.\n")
}

fn absolute_config() -> SiteConfig {
    let mut cfg = SiteConfig::default();
    cfg.schedule_dir = "/site/content/drafts/schedule".to_string();
    cfg.drafts_creation_dir = "/site/content/drafts".to_string();
    cfg
}

fn empty_watcher() -> SiteWatcher {
    SiteWatcher::new(&Vec::new(), 0, at(0))
        .expect("an empty directory has no post without a date")
        .watcher
}

#[test]
fn a_change_goes_where_its_tree_says() {
    assert_eq!(route_for(true, true, true), Route::Ignore);
    assert_eq!(route_for(true, false, false), Route::Ignore);
    assert_eq!(route_for(false, true, false), Route::Schedule);
    assert_eq!(route_for(false, true, true), Route::Schedule);
    assert_eq!(route_for(false, false, true), Route::Ignore);
    assert_eq!(route_for(false, false, false), Route::Rebuild);
}

#[test]
fn a_change_under_the_schedule_directory_is_one_of_the_schedule() {
    let cfg = absolute_config();
    assert_eq!(
        process_evt("/site/content/drafts/schedule/a.md", false, &cfg),
        Route::Schedule
    );
}

#[test]
fn a_change_under_the_drafts_directory_is_ignored() {
    let cfg = absolute_config();
    assert_eq!(process_evt("/site/content/drafts/a.md", false, &cfg), Route::Ignore);
}

#[test]
fn a_change_elsewhere_calls_for_a_rebuild() {
    let cfg = absolute_config();
    assert_eq!(process_evt("/site/content/posts/a.md", false, &cfg), Route::Rebuild);
    assert_eq!(process_evt("/site/sass/main.scss", false, &cfg), Route::Rebuild);
    assert_eq!(
        process_evt("/site/content/drafts/scheduled.md", false, &cfg),
        Route::Ignore
    );
    assert_eq!(
        process_evt("/site/content/drafts-old/a.md", false, &cfg),
        Route::Rebuild
    );
}

#[test]
fn a_change_of_a_directory_is_ignored() {
    let cfg = absolute_config();
    assert_eq!(
        process_evt("/site/content/drafts/schedule", true, &cfg),
        Route::Ignore
    );
    assert_eq!(process_evt("/site/content/posts", true, &cfg), Route::Ignore);
}

#[test]
fn five_trees_are_watched() {
    assert_eq!(
        watched_trees(),
        vec!["content", "sass", "static", "templates", "themes"]
    );
}

#[test]
fn a_new_file_is_scheduled() {
    let mut watcher = empty_watcher();
    let state = FileState::Present {
        content: post("2024-06-27"),
    };
    let outcome = watcher.process_schedule_evt("a.md", &state, 0);
    assert!(outcome.index_changed);
    assert_eq!(outcome.error, None);
    assert_eq!(watcher.index.instant_of("a.md"), Some(at(1_719_446_400)));
}

#[test]
fn a_file_written_again_is_rescheduled() {
    let mut watcher = empty_watcher();
    let first = FileState::Present {
        content: post("2024-06-27"),
    };
    let second = FileState::Present {
        content: post("2024-06-28"),
    };
    watcher.process_schedule_evt("a.md", &first, 0);
    let outcome = watcher.process_schedule_evt("a.md", &second, 0);
    assert!(outcome.index_changed);
    assert_eq!(watcher.index.len(), 1);
    assert_eq!(watcher.index.instant_of("a.md"), Some(at(1_719_532_800)));
}

#[test]
fn a_file_written_again_with_the_same_date_still_counts_as_a_change() {
    let mut watcher = empty_watcher();
    let state = FileState::Present {
        content: post("2024-06-27"),
    };
    watcher.process_schedule_evt("a.md", &state, 0);
    let outcome = watcher.process_schedule_evt("a.md", &state, 0);
    assert!(outcome.index_changed);
    assert_eq!(watcher.index.len(), 1);
}

#[test]
fn a_file_without_a_date_leaves_the_index_alone() {
    let mut watcher = empty_watcher();
    let good = FileState::Present {
        content: post("2024-06-27"),
    };
    let bad = FileState::Present {
        content: post("someday"),
    };
    watcher.process_schedule_evt("a.md", &good, 0);
    let outcome = watcher.process_schedule_evt("a.md", &bad, 0);
    assert!(!outcome.index_changed);
    assert_eq!(outcome.error, Some(DateError::Malformed));
    assert_eq!(watcher.index.instant_of("a.md"), Some(at(1_719_446_400)));
}

#[test]
fn a_removed_file_is_unscheduled() {
    let mut watcher = empty_watcher();
    let state = FileState::Present {
        content: post("2024-06-27"),
    };
    watcher.process_schedule_evt("a.md", &state, 0);
    let outcome = watcher.process_schedule_evt("a.md", &FileState::Removed, 0);
    assert!(outcome.index_changed);
    assert_eq!(outcome.error, None);
    assert!(watcher.index.is_empty());
}

#[test]
fn a_removed_file_that_was_not_scheduled_changes_nothing() {
    let mut watcher = empty_watcher();
    let outcome = watcher.process_schedule_evt("a.md", &FileState::Removed, 0);
    assert!(!outcome.index_changed);
    assert_eq!(outcome.error, None);
}

#[test]
fn a_scan_fails_on_a_post_without_a_date() {
    let files = vec![
        ScheduledFile {
            file_name: "good.md".to_string(),
            content: post("2024-06-27"),
        },
        ScheduledFile {
            file_name: "bad.md".to_string(),
            content: "+++\ntitle = \"No date\"\n+++\n".to_string(),
        },
    ];
    assert!(matches!(
        SiteWatcher::new(&files, 0, at(0)),
        Err(DateError::Missing)
    ));
}

#[test]
fn a_scan_reads_dates_at_the_configured_offset() {
    let files = vec![ScheduledFile {
        file_name: "a.md".to_string(),
        content: post("2024-06-27"),
    }];
    let start = SiteWatcher::new(&files, 3_600, at(0)).expect("the post has a date");
    assert_eq!(start.watcher.index.instant_of("a.md"), Some(at(1_719_442_800)));
}

#[test]
fn the_index_page_is_told_from_posts() {
    assert!(is_index_file("_index.md"));
    assert!(!is_index_file("index.md"));
    assert!(!is_index_file("_index.md.bak"));
    assert!(!is_index_file("_INDEX.md"));
    assert!(!is_index_file(""));
}
