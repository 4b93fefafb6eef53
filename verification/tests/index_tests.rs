use emile::forward::Bucket;
use emile::index::ScheduleIndex;
use emile::instant::Instant;

fn at(seconds: i64) -> Instant {
    Instant::from_unix_seconds(seconds)
}

fn names(paths: &[&str]) -> Vec<String> {
    paths.iter().map(|p| p.to_string()).collect()
}

fn contents(due: &[Bucket]) -> Vec<(Instant, Vec<String>)> {
    due.iter().map(|b| (b.instant, b.paths.clone())).collect()
}

#[test]
fn new_index_is_empty() {
    let index = ScheduleIndex::new();
    assert!(index.is_empty());
    assert_eq!(index.len(), 0);
    assert!(index.nearest().is_none());
    assert_eq!(index.instant_of("a"), None);
}

#[test]
fn upsert_then_nearest_gives_the_smallest_instant() {
    let mut index = ScheduleIndex::new();
    index.upsert("a", at(30));
    index.upsert("b", at(10));
    index.upsert("c", at(20));
    let nearest = index.nearest().expect("three posts are scheduled");
    assert_eq!(nearest.instant, at(10));
    assert_eq!(nearest.paths, names(&["b"]));
    assert_eq!(index.len(), 3);
    assert!(!index.is_empty());
}

#[test]
fn upsert_moves_a_path_to_its_new_bucket() {
    let mut index = ScheduleIndex::new();
    index.upsert("a", at(10));
    index.upsert("b", at(10));
    index.upsert("a", at(5));
    assert_eq!(index.len(), 2);
    assert_eq!(index.instant_of("a"), Some(at(5)));
    let due = index.take_due(at(100));
    assert_eq!(
        contents(&due),
        vec![(at(5), names(&["a"])), (at(10), names(&["b"]))]
    );
}

#[test]
fn a_bucket_left_empty_is_gone() {
    let mut index = ScheduleIndex::new();
    index.upsert("a", at(10));
    index.upsert("b", at(20));
    index.upsert("a", at(20));
    let nearest = index.nearest().expect("two posts are scheduled");
    assert_eq!(nearest.instant, at(20));
    assert_eq!(nearest.paths, names(&["b", "a"]));
    let due = index.take_due(at(15));
    assert!(due.is_empty());
}

#[test]
fn upsert_twice_is_upsert_once() {
    let mut once = ScheduleIndex::new();
    once.upsert("a", at(10));
    once.upsert("b", at(10));
    let mut twice = ScheduleIndex::new();
    twice.upsert("a", at(10));
    twice.upsert("b", at(10));
    twice.upsert("a", at(10));
    assert_eq!(once.len(), twice.len());
    assert_eq!(once.instant_of("a"), twice.instant_of("a"));
    assert_eq!(
        contents(&once.take_due(at(10))),
        contents(&twice.take_due(at(10)))
    );
}

#[test]
fn remove_returns_the_instant_and_forgets_the_path() {
    let mut index = ScheduleIndex::new();
    index.upsert("a", at(10));
    index.upsert("b", at(20));
    assert_eq!(index.remove("a"), Some(at(10)));
    assert_eq!(index.instant_of("a"), None);
    assert_eq!(index.len(), 1);
    assert_eq!(index.nearest().map(|b| b.instant), Some(at(20)));
}

#[test]
fn remove_of_an_unknown_path_changes_nothing() {
    let mut index = ScheduleIndex::new();
    index.upsert("a", at(10));
    assert_eq!(index.remove("b"), None);
    assert_eq!(index.len(), 1);
    assert_eq!(index.instant_of("a"), Some(at(10)));
}

#[test]
fn take_due_returns_buckets_in_ascending_order() {
    let mut index = ScheduleIndex::new();
    index.upsert("late", at(300));
    index.upsert("first", at(100));
    index.upsert("second", at(200));
    index.upsert("also-first", at(100));
    let due = index.take_due(at(200));
    assert_eq!(
        contents(&due),
        vec![
            (at(100), names(&["first", "also-first"])),
            (at(200), names(&["second"])),
        ]
    );
    assert_eq!(index.len(), 1);
    assert_eq!(index.instant_of("late"), Some(at(300)));
}

#[test]
fn take_due_at_the_instant_itself_takes_the_entry() {
    let mut index = ScheduleIndex::new();
    index.upsert("a", at(10));
    assert!(index.take_due(at(9)).is_empty());
    assert_eq!(contents(&index.take_due(at(10))), vec![(at(10), names(&["a"]))]);
    assert!(index.is_empty());
}

#[test]
fn take_due_after_every_instant_empties_the_index() {
    let mut index = ScheduleIndex::new();
    index.upsert("a", at(10));
    index.upsert("b", at(20));
    index.upsert("c", at(20));
    index.upsert("d", at(30));
    let due = index.take_due(at(30));
    assert_eq!(
        contents(&due),
        vec![
            (at(10), names(&["a"])),
            (at(20), names(&["b", "c"])),
            (at(30), names(&["d"])),
        ]
    );
    assert!(index.is_empty());
    assert!(index.nearest().is_none());
}

#[test]
fn views_stay_consistent_over_a_mixed_run() {
    let mut index = ScheduleIndex::new();
    let paths = ["a", "b", "c", "d", "e"];
    for round in 0..40i64 {
        let path = paths[(round % 5) as usize];
        if round % 7 == 3 {
            index.remove(path);
        } else {
            index.upsert(path, at(round % 4));
        }
        let mut expected: Vec<(String, Instant)> = Vec::new();
        for p in paths {
            if let Some(t) = index.instant_of(p) {
                expected.push((p.to_string(), t));
            }
        }
        assert_eq!(index.len(), expected.len());
        let mut copy = ScheduleIndex::new();
        for (p, t) in &expected {
            copy.upsert(p, *t);
        }
        let drained = index_contents(&mut copy);
        for (instant, bucket) in &drained {
            assert!(!bucket.is_empty());
            for p in bucket {
                assert_eq!(index.instant_of(p), Some(*instant));
            }
        }
        let listed: usize = drained.iter().map(|(_, b)| b.len()).sum();
        assert_eq!(listed, expected.len());
    }
}

fn index_contents(index: &mut ScheduleIndex) -> Vec<(Instant, Vec<String>)> {
    contents(&index.take_due(Instant { nanos: i128::MAX }))
}

#[test]
fn instants_are_compared_by_nanosecond() {
    let mut index = ScheduleIndex::new();
    index.upsert("a", Instant { nanos: 1_000_000_001 });
    index.upsert("b", Instant { nanos: 1_000_000_000 });
    assert_eq!(index.nearest().map(|b| b.paths.clone()), Some(names(&["b"])));
    assert_eq!(at(1), Instant { nanos: 1_000_000_000 });
}

#[test]
fn a_wait_is_rounded_up_to_whole_seconds() {
    assert_eq!(at(10).wait_seconds(at(0)), 10);
    assert_eq!(Instant { nanos: 1_999_999_999 }.wait_seconds(at(0)), 2);
    assert_eq!(Instant { nanos: 1 }.wait_seconds(at(0)), 1);
    assert_eq!(Instant { nanos: 1_000_000_001 }.wait_seconds(at(1)), 1);
    assert_eq!(at(0).wait_seconds(at(10)), 0);
    assert_eq!(at(5).wait_seconds(at(5)), 0);
    assert_eq!(
        Instant { nanos: i128::MAX }.wait_seconds(Instant { nanos: i128::MIN }),
        u64::MAX
    );
    assert!(at(5).is_due(at(5)));
    assert!(!at(6).is_due(at(5)));
}
