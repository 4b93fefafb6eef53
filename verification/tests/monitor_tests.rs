use emile::instant::Instant;
use emile::monitor::Debouncer;

fn ms(millis: i128) -> Instant {
    Instant { nanos: millis * 1_000_000 }
}

#[test]
fn a_burst_within_the_window_gives_one_notification() {
    let mut debouncer = Debouncer::new(2);
    let mut notifications = 0;
    for step in 0..10 {
        debouncer.observe("content/post.md", ms(step * 100));
        notifications += debouncer.release(ms(step * 100 + 50)).len();
    }
    assert_eq!(notifications, 0);
    assert_eq!(debouncer.pending(), 1);
    assert!(debouncer.release(ms(2_899)).is_empty());
    assert_eq!(debouncer.release(ms(2_900)), vec!["content/post.md".to_string()]);
    assert_eq!(debouncer.pending(), 0);
    assert!(debouncer.release(ms(10_000)).is_empty());
}

#[test]
fn an_event_refreshes_the_record_of_its_path() {
    let mut debouncer = Debouncer::new(1);
    debouncer.observe("a", ms(0));
    debouncer.observe("a", ms(900));
    assert!(debouncer.release(ms(1_000)).is_empty());
    assert!(debouncer.release(ms(1_899)).is_empty());
    assert_eq!(debouncer.release(ms(1_900)), vec!["a".to_string()]);
}

#[test]
fn two_edit_sessions_give_two_notifications() {
    let mut debouncer = Debouncer::new(1);
    debouncer.observe("a", ms(0));
    assert_eq!(debouncer.release(ms(1_000)), vec!["a".to_string()]);
    debouncer.observe("a", ms(5_000));
    assert!(debouncer.release(ms(5_500)).is_empty());
    assert_eq!(debouncer.release(ms(6_000)), vec!["a".to_string()]);
}

#[test]
fn paths_are_released_each_on_its_own() {
    let mut debouncer = Debouncer::new(1);
    debouncer.observe("a", ms(0));
    debouncer.observe("b", ms(600));
    assert_eq!(debouncer.pending(), 2);
    assert_eq!(debouncer.release(ms(1_000)), vec!["a".to_string()]);
    assert_eq!(debouncer.pending(), 1);
    assert_eq!(debouncer.release(ms(1_600)), vec!["b".to_string()]);
}

#[test]
fn paths_released_together_come_each_once() {
    let mut debouncer = Debouncer::new(1);
    debouncer.observe("b", ms(0));
    debouncer.observe("a", ms(1));
    debouncer.observe("b", ms(2));
    let mut released = debouncer.release(ms(5_000));
    released.sort();
    assert_eq!(released, vec!["a".to_string(), "b".to_string()]);
}

#[test]
fn a_chain_of_events_each_within_a_window_of_the_last_gives_one_notification() {
    let mut debouncer = Debouncer::new(1);
    let mut notifications = 0;
    for step in 0..20 {
        debouncer.observe("a", ms(step * 900));
        notifications += debouncer.release(ms(step * 900 + 450)).len();
    }
    assert_eq!(notifications, 0);
    notifications += debouncer.release(ms(19 * 900 + 999)).len();
    assert_eq!(notifications, 0);
    notifications += debouncer.release(ms(19 * 900 + 1_000)).len();
    notifications += debouncer.release(ms(100_000)).len();
    assert_eq!(notifications, 1);
}

#[test]
fn a_window_of_no_length_releases_at_the_next_poll() {
    let mut debouncer = Debouncer::new(0);
    debouncer.observe("a", ms(7));
    assert_eq!(debouncer.release(ms(7)), vec!["a".to_string()]);
}

#[test]
fn a_poll_before_any_event_releases_nothing() {
    let mut debouncer = Debouncer::new(2);
    assert!(debouncer.release(ms(0)).is_empty());
    assert!(debouncer
        .release(Instant { nanos: i128::MIN })
        .is_empty());
    assert_eq!(debouncer.pending(), 0);
}
