//! The command line, as values.

use vstd::prelude::*;

verus! {

/// A workflow companion for the zola site generator.
#[derive(Debug)]
pub struct Opt {
    /// Directory the log file is written to.
    pub log_dir: Option<String>,
    pub command: Commands,
}

/// What the tool is asked to do.
#[derive(Debug)]
pub enum Commands {
    /// Create a new post in the drafts folder, with the current date in
    /// its frontmatter.
    New {
        /// Title of the post.
        title: String,
    },
    /// Mark a post as not a draft, move it to the posts folder and set the
    /// date in its frontmatter.
    Publish {
        /// Path to the post to publish.
        post: String,
    },
    /// Watch a site, to manage scheduling and publication as files change.
    Watch {
        /// Path to the site to watch.
        website: String,
    },
    /// Schedule a post.
    Schedule {
        /// When to publish the post, relative to now or absolute.
        time: String,
        /// Path to the post to schedule.
        post: String,
    },
}

} // verus!
