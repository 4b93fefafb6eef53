//! A workflow companion for a static site: drafts, scheduled publication,
//! and the announcement of new posts on social networks.
//!
//! The heart of the crate is the scheduled-publication engine:
//!
//! - [`index`] holds the schedule, as two views of one set of entries: the
//!   [`forward`] view from instant to posts, and the [`reverse`] view from
//!   post to instant;
//! - [`monitor`] collapses bursts of filesystem events into one
//!   notification per path;
//! - [`watcher`] tells what a change means: it routes it, and keeps the
//!   index in step with the schedule directory;
//! - [`scheduler`] is the state machine that owns the one timer, aimed at
//!   the nearest pending instant.
//!
//! Around it stand the texts the tool reads and writes: the frontmatter of
//! a post ([`post`]), its way from draft to publication ([`publish`]), the
//! time a schedule is asked for ([`when`]), the configuration ([`config`]),
//! the status posted on social networks ([`social`], [`mastodon`],
//! [`bluesky`]), and the commands carried by commit messages and job lists
//! ([`git`], [`jobs`]).
//!
//! The crate does no input or output: files, clocks, timers and the
//! network belong to its caller, who hands over what was read and carries
//! out what is decided. What the crate takes on trust from the crates it
//! calls is gathered in [`outside`].

pub mod bluesky;
pub mod civil;
pub mod config;
pub mod forward;
pub mod git;
pub mod index;
pub mod instant;
pub mod jobs;
pub mod mapfacts;
pub mod mastodon;
pub mod monitor;
pub mod opt;
pub mod outside;
pub mod post;
pub mod publish;
pub mod reverse;
pub mod scheduler;
pub mod social;
pub mod text;
pub mod watcher;
pub mod when;
