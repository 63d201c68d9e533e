//! Incremental replication of commits from a remote history into a local
//! one by cherry-picking, with enough written into each local commit to take
//! up again after a failure.
//!
//! The library decides and the caller acts: the repository stays with the
//! caller, who hands the library what it read there and performs what the
//! library asks for.
//!
//! - [`tag`] writes and reads the trailer that ties a local commit to the
//!   remote commit it was replayed from.
//! - [`commits_map`] holds the ledger, the map from remote commits to their
//!   local counterparts, and fills it from tagged commits.
//! - [`sync`] finds the remote commits that are still to replay on a branch,
//!   and bootstraps a branch that has no anchor yet.
//! - [`replay`] plans the replay of one remote commit: its local parents,
//!   where the head goes, its message, and what is left behind on conflicts.
//! - [`message`] filters a remote message and appends the tag.
//! - [`history`] states what a run of replays does to the ledger and to the
//!   branch as a whole.
//! - [`app`], [`error`] and [`util`] hold the options of a run, its errors
//!   and the reading of the operator's answer; [`oid`], [`commit`] and
//!   [`text`] the values that all of them work on.

pub mod app;
pub mod commit;
pub mod commits_map;
pub mod error;
pub mod history;
pub mod message;
pub mod oid;
pub mod replay;
pub mod sync;
pub mod tag;
pub mod text;
pub mod util;
