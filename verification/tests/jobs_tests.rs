use emile::git::update_remote;
use emile::jobs::{clean_jobs_list, job_records, schedule_publish, unschedule_publish};

#[test]
fn a_job_runs_the_publication_at_its_date() {
    let job = schedule_publish("\"11:11 + 3 days\"", "my-post");
    assert_eq!(job.date, "11:11 + 3 days");
    assert_eq!(job.command, "emile publish-flow my-post");
    assert_eq!(schedule_publish("tomorrow", "a").date, "tomorrow");
    assert_eq!(schedule_publish("\"\"now\"", "a").date, "now");
    assert_eq!(schedule_publish("say \"now\"", "a").date, "say \"now");
    assert_eq!(schedule_publish("\"\"\"", "a").date, "");
}

#[test]
fn the_answer_of_at_is_recorded_with_the_post() {
    let answer = "warning: commands will be executed using /bin/sh\njob 12 at Thu Jun 27 11:11:00 2024\n";
    assert_eq!(
        job_records(answer, "my-post"),
        "job 12 at Thu Jun 27 11:11:00 2024 \"my-post\"\n"
    );
    assert_eq!(job_records("nothing to see\n", "my-post"), "");
    assert_eq!(
        job_records("job 1 at a\njobless\njob 2 at b", "p"),
        "job 1 at a \"p\"\njobless \"p\"\njob 2 at b \"p\"\n"
    );
}

#[test]
fn the_lines_of_a_post_leave_the_list() {
    let list = "job 12 at Thu Jun 27 11:11:00 2024 \"my-post\"\njob 13 at Fri Jun 28 11:11:00 2024 \"other\"\n";
    assert_eq!(
        clean_jobs_list(list, "my-post"),
        "job 13 at Fri Jun 28 11:11:00 2024 \"other\""
    );
    assert_eq!(clean_jobs_list(list, "post"), "job 12 at Thu Jun 27 11:11:00 2024 \"my-post\"job 13 at Fri Jun 28 11:11:00 2024 \"other\"");
    assert_eq!(clean_jobs_list("", "my-post"), "");
}

#[test]
fn unscheduling_names_the_jobs_to_remove() {
    let list = "job 12 at Thu Jun 27 11:11:00 2024 \"my-post\"\njob 13 at Fri Jun 28 11:11:00 2024 \"other\"\njob\t14 at Sat \"my-post\"\n";
    let done = unschedule_publish(list, "my-post").expect("each line names its job");
    assert_eq!(done.job_numbers, vec!["12".to_string(), "14".to_string()]);
    assert_eq!(done.kept, "job 13 at Fri Jun 28 11:11:00 2024 \"other\"");
    let none = unschedule_publish(list, "unknown").expect("no line is concerned");
    assert!(none.job_numbers.is_empty());
}

#[test]
fn a_line_that_names_no_job_cannot_be_unscheduled() {
    assert!(unschedule_publish("\"my-post\"\n", "my-post").is_none());
    assert!(unschedule_publish("job 1 \"a\"\n  \"my-post\"  \n", "my-post").is_some());
    assert!(unschedule_publish("job 1 \"a\"\n\"my-post\"\n", "my-post").is_none());
}

#[test]
fn a_publication_is_committed_under_its_name() {
    let commit = update_remote("my-post", "content/posts/");
    assert_eq!(commit.files, "content/posts/*.md");
    assert_eq!(commit.message, "\"published my-post.md\"");
}
