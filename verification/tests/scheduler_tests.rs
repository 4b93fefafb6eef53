use emile::index::ScheduleIndex;
use emile::instant::Instant;
use emile::scheduler::{Scheduler, SchedulerEvent, SchedulerState, Timer};
use emile::watcher::{FileState, ScheduledFile, SiteWatcher};

fn at(seconds: i64) -> Instant {
    Instant::from_unix_seconds(seconds)
}

fn published(directive: &emile::scheduler::Directive) -> Vec<String> {
    directive
        .publish
        .iter()
        .flat_map(|b| b.paths.iter().cloned())
        .collect()
}

fn post(date: &str) -> String {
    format!("+++\ntitle = \"A post\"\ndate = {date}\n+++\nText.\n")
}

#[test]
fn one_post_is_armed_for_and_published() {
    let now = 1_000;
    let mut index = ScheduleIndex::new();
    let mut scheduler = Scheduler::new();
    index.upsert("a", at(now + 10));

    let armed = scheduler.handle(&mut index, SchedulerEvent::Changed, at(now));
    assert_eq!(armed.cancel, None);
    assert!(armed.publish.is_empty());
    let timer = armed.arm.expect("a timer is armed");
    assert_eq!(timer.target, at(now + 10));
    assert_eq!(armed.wait_secs, 10);
    assert_eq!(scheduler.state, SchedulerState::Armed(timer));
    assert!(scheduler.is_armed());

    let fired = scheduler.handle(&mut index, SchedulerEvent::Scheduled(timer), at(now + 10));
    assert_eq!(fired.cancel, None);
    assert_eq!(published(&fired), vec!["a".to_string()]);
    assert_eq!(fired.arm, None);
    assert_eq!(fired.wait_secs, 0);
    assert_eq!(scheduler.state, SchedulerState::Idle);
    assert!(index.is_empty());
}

#[test]
fn a_rescheduled_post_is_published_once() {
    let now = 1_000;
    let mut index = ScheduleIndex::new();
    let mut scheduler = Scheduler::new();
    index.upsert("a", at(now + 10));
    let first = scheduler
        .handle(&mut index, SchedulerEvent::Changed, at(now))
        .arm
        .expect("a timer is armed");

    index.upsert("a", at(now + 3));
    let rearmed = scheduler.handle(&mut index, SchedulerEvent::Changed, at(now + 2));
    assert_eq!(rearmed.cancel, Some(first));
    assert!(rearmed.publish.is_empty());
    let second = rearmed.arm.expect("a new timer is armed");
    assert_ne!(second.id, first.id);
    assert_eq!(second.target, at(now + 3));
    assert_eq!(rearmed.wait_secs, 1);

    let fired = scheduler.handle(&mut index, SchedulerEvent::Scheduled(second), at(now + 3));
    assert_eq!(published(&fired), vec!["a".to_string()]);
    assert_eq!(scheduler.state, SchedulerState::Idle);

    let stale = scheduler.handle(&mut index, SchedulerEvent::Scheduled(first), at(now + 10));
    assert_eq!(stale.cancel, None);
    assert!(stale.publish.is_empty());
    assert_eq!(stale.arm, None);
    assert_eq!(scheduler.state, SchedulerState::Idle);
}

#[test]
fn a_post_rescheduled_into_the_past_is_published_at_once() {
    let now = 1_000;
    let mut index = ScheduleIndex::new();
    let mut scheduler = Scheduler::new();
    index.upsert("a", at(now + 10));
    let first = scheduler
        .handle(&mut index, SchedulerEvent::Changed, at(now))
        .arm
        .expect("a timer is armed");

    index.upsert("a", at(now + 1));
    let changed = scheduler.handle(&mut index, SchedulerEvent::Changed, at(now + 2));
    assert_eq!(changed.cancel, Some(first));
    assert_eq!(published(&changed), vec!["a".to_string()]);
    assert_eq!(changed.arm, None);
    assert_eq!(scheduler.state, SchedulerState::Idle);

    let stale = scheduler.handle(&mut index, SchedulerEvent::Scheduled(first), at(now + 10));
    assert!(stale.publish.is_empty());
}

#[test]
fn a_cancelled_timer_that_runs_out_while_another_is_armed_is_ignored() {
    let now = 1_000;
    let mut index = ScheduleIndex::new();
    let mut scheduler = Scheduler::new();
    index.upsert("a", at(now + 10));
    let first = scheduler
        .handle(&mut index, SchedulerEvent::Changed, at(now))
        .arm
        .expect("a timer is armed");
    index.upsert("b", at(now + 5));
    let second = scheduler
        .handle(&mut index, SchedulerEvent::Changed, at(now + 1))
        .arm
        .expect("a new timer is armed");

    let stale = scheduler.handle(&mut index, SchedulerEvent::Scheduled(first), at(now + 20));
    assert!(stale.publish.is_empty());
    assert_eq!(stale.cancel, None);
    assert_eq!(stale.arm, None);
    assert_eq!(scheduler.state, SchedulerState::Armed(second));
    assert_eq!(index.len(), 2);
}

#[test]
fn two_posts_at_one_instant_share_a_timer() {
    let now = 1_000;
    let mut index = ScheduleIndex::new();
    let mut scheduler = Scheduler::new();
    index.upsert("a", at(now + 10));
    index.upsert("b", at(now + 10));
    let armed = scheduler.handle(&mut index, SchedulerEvent::Changed, at(now));
    let timer = armed.arm.expect("a timer is armed");
    assert_eq!(timer.target, at(now + 10));

    let fired = scheduler.handle(&mut index, SchedulerEvent::Scheduled(timer), at(now + 10));
    assert_eq!(fired.publish.len(), 1);
    assert_eq!(published(&fired), vec!["a".to_string(), "b".to_string()]);
    assert_eq!(fired.arm, None);
    assert!(index.is_empty());
}

#[test]
fn a_deleted_post_is_not_published() {
    let now = 1_000;
    let files = vec![ScheduledFile {
        file_name: "a.md".to_string(),
        content: post("1970-01-01T00:16:50Z"),
    }];
    let start = SiteWatcher::new(&files, 0, at(now)).expect("the post has a date");
    assert!(start.due.is_empty());
    let mut watcher = start.watcher;
    let mut scheduler = Scheduler::new();
    let first = scheduler
        .handle(&mut watcher.index, SchedulerEvent::Changed, at(now))
        .arm
        .expect("a timer is armed");
    assert_eq!(first.target, at(now + 10));

    let outcome = watcher.process_schedule_evt("a.md", &FileState::Removed, 0);
    assert!(outcome.index_changed);
    assert_eq!(outcome.error, None);

    let changed = scheduler.handle(&mut watcher.index, SchedulerEvent::Changed, at(now + 1));
    assert_eq!(changed.cancel, Some(first));
    assert!(changed.publish.is_empty());
    assert_eq!(changed.arm, None);
    assert_eq!(scheduler.state, SchedulerState::Idle);

    let stale = scheduler.handle(&mut watcher.index, SchedulerEvent::Scheduled(first), at(now + 10));
    assert!(stale.publish.is_empty());
}

#[test]
fn after_a_deletion_the_timer_moves_to_the_next_post() {
    let now = 1_000;
    let mut index = ScheduleIndex::new();
    let mut scheduler = Scheduler::new();
    index.upsert("a", at(now + 10));
    index.upsert("b", at(now + 20));
    let first = scheduler
        .handle(&mut index, SchedulerEvent::Changed, at(now))
        .arm
        .expect("a timer is armed");
    index.remove("a");
    let changed = scheduler.handle(&mut index, SchedulerEvent::Changed, at(now + 1));
    assert_eq!(changed.cancel, Some(first));
    assert!(changed.publish.is_empty());
    assert_eq!(changed.arm.map(|t| t.target), Some(at(now + 20)));
    assert_eq!(changed.wait_secs, 19);
}

#[test]
fn a_post_due_at_startup_is_published_and_not_indexed() {
    let now = 1_719_446_400;
    let files = vec![
        ScheduledFile {
            file_name: "_index.md".to_string(),
            content: "no frontmatter at all".to_string(),
        },
        ScheduledFile {
            file_name: "past.md".to_string(),
            content: post("2024-06-26"),
        },
        ScheduledFile {
            file_name: "future.md".to_string(),
            content: post("2024-06-28"),
        },
    ];
    let start = SiteWatcher::new(&files, 0, at(now)).expect("the posts have dates");
    assert_eq!(start.due.len(), 1);
    assert_eq!(start.due[0].instant, at(now - 86_400));
    assert_eq!(start.due[0].paths, vec!["past.md".to_string()]);
    assert_eq!(start.watcher.index.len(), 1);
    assert_eq!(start.watcher.index.instant_of("past.md"), None);
    assert_eq!(start.watcher.index.instant_of("future.md"), Some(at(now + 86_400)));
}

#[test]
fn after_publication_the_timer_is_armed_for_what_is_left() {
    let now = 1_000;
    let mut index = ScheduleIndex::new();
    let mut scheduler = Scheduler::new();
    index.upsert("a", at(now + 10));
    index.upsert("b", at(now + 30));
    let first = scheduler
        .handle(&mut index, SchedulerEvent::Changed, at(now))
        .arm
        .expect("a timer is armed");
    let fired = scheduler.handle(&mut index, SchedulerEvent::Scheduled(first), at(now + 12));
    assert_eq!(published(&fired), vec!["a".to_string()]);
    let next = fired.arm.expect("a timer is armed for the next post");
    assert_eq!(next.target, at(now + 30));
    assert_eq!(fired.wait_secs, 18);
    assert_eq!(scheduler.state, SchedulerState::Armed(next));
}

#[test]
fn a_timer_that_runs_out_takes_all_that_became_due() {
    let now = 1_000;
    let mut index = ScheduleIndex::new();
    let mut scheduler = Scheduler::new();
    index.upsert("a", at(now + 10));
    let timer = scheduler
        .handle(&mut index, SchedulerEvent::Changed, at(now))
        .arm
        .expect("a timer is armed");
    index.upsert("b", at(now + 11));
    index.upsert("c", at(now + 10));
    let fired = scheduler.handle(&mut index, SchedulerEvent::Scheduled(timer), at(now + 11));
    assert_eq!(
        published(&fired),
        vec!["a".to_string(), "c".to_string(), "b".to_string()]
    );
    assert_eq!(fired.arm, None);
    assert!(index.is_empty());
}

#[test]
fn a_change_of_an_empty_index_leaves_the_scheduler_idle() {
    let mut index = ScheduleIndex::new();
    let mut scheduler = Scheduler::new();
    let directive = scheduler.handle(&mut index, SchedulerEvent::Changed, at(0));
    assert_eq!(directive.cancel, None);
    assert!(directive.publish.is_empty());
    assert_eq!(directive.arm, None);
    assert_eq!(scheduler.state, SchedulerState::Idle);
    assert!(!scheduler.is_armed());
}

#[test]
fn at_most_one_timer_is_live_over_a_run_of_changes() {
    let mut index = ScheduleIndex::new();
    let mut scheduler = Scheduler::new();
    let mut live: Vec<Timer> = Vec::new();
    for round in 0..30i64 {
        if round % 3 == 0 {
            index.upsert("a", at(1_000 + round));
        } else if round % 3 == 1 {
            index.upsert("b", at(2_000 - round));
        } else {
            index.remove("a");
        }
        let directive = scheduler.handle(&mut index, SchedulerEvent::Changed, at(round));
        if let Some(cancelled) = directive.cancel {
            live.retain(|t| *t != cancelled);
        }
        if let Some(armed) = directive.arm {
            live.push(armed);
        }
        assert!(live.len() <= 1);
        match scheduler.state {
            SchedulerState::Idle => assert!(live.is_empty()),
            SchedulerState::Armed(timer) => assert_eq!(live, vec![timer]),
        }
    }
}

#[test]
fn timers_are_numbered_in_turn() {
    let mut index = ScheduleIndex::new();
    let mut scheduler = Scheduler::new();
    index.upsert("a", at(10));
    let first = scheduler.handle(&mut index, SchedulerEvent::Changed, at(0)).arm.unwrap();
    let second = scheduler.handle(&mut index, SchedulerEvent::Changed, at(0)).arm.unwrap();
    assert_eq!(first.id, 1);
    assert_eq!(second.id, 2);
    let mut last = Scheduler::new();
    last.issued = u64::MAX;
    let wrapped = last.handle(&mut index, SchedulerEvent::Changed, at(0)).arm.unwrap();
    assert_eq!(wrapped.id, 0);
    assert_eq!(last.issued, 0);
}

#[test]
fn a_timer_runs_at_least_until_its_target() {
    let mut index = ScheduleIndex::new();
    let mut scheduler = Scheduler::new();
    index.upsert("a", Instant { nanos: 10_500_000_000 });
    let armed = scheduler.handle(&mut index, SchedulerEvent::Changed, at(10));
    let timer = armed.arm.expect("a timer is armed");
    assert_eq!(armed.wait_secs, 1);
    let early = scheduler.handle(&mut index, SchedulerEvent::Scheduled(timer), Instant { nanos: 10_499_999_999 });
    assert!(early.publish.is_empty());
    assert_eq!(early.wait_secs, 1);
    let again = early.arm.expect("the post is still pending");
    let fired = scheduler.handle(&mut index, SchedulerEvent::Scheduled(again), at(11));
    assert_eq!(fired.publish.len(), 1);
    assert_eq!(fired.wait_secs, 0);
}
