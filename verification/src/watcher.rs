//! What a change under the watched trees means: the classifier that keeps
//! the schedule index in step with the schedule directory, and the router
//! that tells a change of the schedule from one that calls for a rebuild.

use vstd::prelude::*;
use crate::config::SiteConfig;
use crate::forward::{is_due_list, Bucket};
use crate::index::{forward_of, still_pending, ScheduleIndex};
use crate::instant::Instant;
use crate::outside::{path_is_under, path_starts_with};
use crate::post::{date_in, extract_date, DateError};

verus! {

/// A regular file found in the schedule directory.
pub struct ScheduledFile {
    pub file_name: String,
    pub content: String,
}

/// The index page of a directory is no post.
pub open spec fn is_index_page(file_name: Seq<char>) -> bool {
    file_name == "_index.md"@
}

/// Whether a file of the schedule directory is its index page, which is
/// not read.
pub fn is_index_file(file_name: &str) -> (r: bool)
    ensures
        r == is_index_page(file_name@),
{
    file_name.to_owned() == "_index.md".to_owned()
}

/// The schedule that the first `upto` files of a directory describe: each
/// post at the date of its frontmatter. A post without a date fails the
/// whole scan.
pub open spec fn scanned_before(files: Seq<ScheduledFile>, offset_secs: int, upto: int) -> Result<
    Map<Seq<char>, int>,
    DateError,
>
    decreases upto,
{
    if upto <= 0 || upto > files.len() {
        Ok(Map::empty())
    } else {
        match scanned_before(files, offset_secs, upto - 1) {
            Err(e) => Err(e),
            Ok(schedule) => if is_index_page(files[upto - 1].file_name@) {
                Ok(schedule)
            } else {
                match date_in(files[upto - 1].content@, offset_secs) {
                    Ok(t) => Ok(schedule.insert(files[upto - 1].file_name@, t)),
                    Err(e) => Err(e),
                }
            },
        }
    }
}

/// The schedule that the files of a directory describe.
pub open spec fn scanned(files: Seq<ScheduledFile>, offset_secs: int) -> Result<
    Map<Seq<char>, int>,
    DateError,
> {
    scanned_before(files, offset_secs, files.len() as int)
}

proof fn lemma_scan_stays_failed(files: Seq<ScheduledFile>, offset_secs: int, from: int, upto: int)
    requires
        0 <= from <= upto <= files.len(),
        scanned_before(files, offset_secs, from) is Err,
    ensures
        scanned_before(files, offset_secs, upto) == scanned_before(files, offset_secs, from),
    decreases upto - from,
{
    if from < upto {
        lemma_scan_stays_failed(files, offset_secs, from, upto - 1);
    }
}

/// What has become of a file of the schedule directory.
pub enum FileState {
    /// The file is gone.
    Removed,
    /// The file is there, with this text.
    Present { content: String },
}

/// What a change in the schedule directory came to.
pub struct ScheduleOutcome {
    /// The index is no longer what it was: the scheduler is to be told.
    pub index_changed: bool,
    /// Why the file could not be scheduled, to be reported.
    pub error: Option<DateError>,
}

/// Where a change goes.
#[derive(Clone, Copy, Debug, PartialEq, Eq, Structural)]
pub enum Route {
    /// Nothing is to be done.
    Ignore,
    /// The change is one of the schedule.
    Schedule,
    /// The site is to be rebuilt.
    Rebuild,
}

/// Where a change goes: a change of a directory nowhere; one under the
/// schedule directory to the schedule; one under the drafts directory
/// nowhere; any other to a rebuild of the site.
pub open spec fn route_of(is_dir: bool, under_schedule: bool, under_drafts: bool) -> Route {
    if is_dir {
        Route::Ignore
    } else if under_schedule {
        Route::Schedule
    } else if under_drafts {
        Route::Ignore
    } else {
        Route::Rebuild
    }
}

/// Where a change goes, from what is known of its path.
pub fn route_for(is_dir: bool, under_schedule: bool, under_drafts: bool) -> (r: Route)
    ensures
        r == route_of(is_dir, under_schedule, under_drafts),
{
    if is_dir {
        Route::Ignore
    } else if under_schedule {
        Route::Schedule
    } else if under_drafts {
        Route::Ignore
    } else {
        Route::Rebuild
    }
}

/// Routes the change of `path`. `is_dir` says whether the path is a
/// directory now; `cfg_abs` holds the schedule and drafts directories as
/// absolute paths.
pub fn process_evt(path: &str, is_dir: bool, cfg_abs: &SiteConfig) -> (r: Route)
    ensures
        r == route_of(
            is_dir,
            path_is_under(path@, cfg_abs.schedule_dir@),
            path_is_under(path@, cfg_abs.drafts_creation_dir@),
        ),
{
    if is_dir {
        return Route::Ignore;
    }
    let under_schedule = path_starts_with(path, cfg_abs.schedule_dir.as_str());
    let under_drafts = path_starts_with(path, cfg_abs.drafts_creation_dir.as_str());
    route_for(is_dir, under_schedule, under_drafts)
}

/// The trees that are watched, below the root of the site.
pub fn watched_trees() -> (r: Vec<String>)
    ensures
        r@.len() == 5,
        r@[0]@ == "content"@,
        r@[1]@ == "sass"@,
        r@[2]@ == "static"@,
        r@[3]@ == "templates"@,
        r@[4]@ == "themes"@,
{
    let mut trees: Vec<String> = Vec::new();
    trees.push("content".to_owned());
    trees.push("sass".to_owned());
    trees.push("static".to_owned());
    trees.push("templates".to_owned());
    trees.push("themes".to_owned());
    trees
}

/// The schedule of a site under watch.
pub struct SiteWatcher {
    pub index: ScheduleIndex,
}

/// What a watch session starts with.
pub struct Startup {
    pub watcher: SiteWatcher,
    /// The posts already due, nearest first: they are published at once,
    /// and are not in the index.
    pub due: Vec<Bucket>,
}

impl SiteWatcher {
    /// The index is well formed.
    pub open spec fn wf(&self) -> bool {
        self.index.wf()
    }

    /// Reads the schedule from the files of the schedule directory, as it
    /// stands at `now`. The index holds what is still to come; what is due
    /// already is handed out for publication.
    pub fn new(files: &Vec<ScheduledFile>, offset_secs: i32, now: Instant) -> (r: Result<
        Startup,
        DateError,
    >)
        ensures
            match r {
                Ok(start) => {
                    &&& start.watcher.wf()
                    &&& scanned(files@, offset_secs as int) matches Ok(schedule)
                    &&& start.watcher.index@ == still_pending(schedule, now@)
                    &&& is_due_list(start.due@, forward_of(schedule), now@)
                },
                Err(e) => scanned(files@, offset_secs as int) == Err::<Map<Seq<char>, int>, DateError>(
                    e,
                ),
            },
    {
        let index_page = "_index.md".to_owned();
        let mut index = ScheduleIndex::new();
        let mut i: usize = 0;
        while i < files.len()
            invariant
                i <= files@.len(),
                index.wf(),
                index_page@ == "_index.md"@,
                scanned_before(files@, offset_secs as int, i as int) == Ok::<
                    Map<Seq<char>, int>,
                    DateError,
                >(index@),
            decreases files@.len() - i,
        {
            if files[i].file_name != index_page {
                match extract_date(files[i].content.as_str(), offset_secs) {
                    Ok(date) => {
                        index.upsert(files[i].file_name.as_str(), date);
                    },
                    Err(e) => {
                        proof {
                            lemma_scan_stays_failed(
                                files@,
                                offset_secs as int,
                                i + 1,
                                files@.len() as int,
                            );
                        }
                        return Err(e);
                    },
                }
            }
            i += 1;
        }
        let due = index.take_due(now);
        Ok(Startup { watcher: SiteWatcher { index }, due })
    }

    /// Brings the index in step with a file of the schedule directory.
    ///
    /// A file that is gone is unscheduled; the index has changed if it was
    /// scheduled. A file that is there is scheduled at the date of its
    /// frontmatter, and the index counts as changed; without a date the
    /// index stays as it is and the reason is handed back.
    pub fn process_schedule_evt(&mut self, file_name: &str, state: &FileState, offset_secs: i32) -> (r:
        ScheduleOutcome)
        requires
            old(self).wf(),
        ensures
            final(self).wf(),
            match *state {
                FileState::Removed => {
                    &&& final(self).index@ == old(self).index@.remove(file_name@)
                    &&& r.index_changed == old(self).index@.contains_key(file_name@)
                    &&& r.error is None
                },
                FileState::Present { content } => match date_in(content@, offset_secs as int) {
                    Ok(t) => {
                        &&& final(self).index@ == old(self).index@.insert(file_name@, t)
                        &&& r.index_changed
                        &&& r.error is None
                    },
                    Err(e) => {
                        &&& final(self).index@ == old(self).index@
                        &&& !r.index_changed
                        &&& r.error == Some(e)
                    },
                },
            },
    {
        match state {
            FileState::Removed => {
                let removed = self.index.remove(file_name);
                ScheduleOutcome { index_changed: removed.is_some(), error: None }
            },
            FileState::Present { content } => match extract_date(content.as_str(), offset_secs) {
                Ok(date) => {
                    self.index.upsert(file_name, date);
                    ScheduleOutcome { index_changed: true, error: None }
                },
                Err(e) => ScheduleOutcome { index_changed: false, error: Some(e) },
            },
        }
    }
}

} // verus!
