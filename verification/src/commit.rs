//! What the engine reads of a commit.

use vstd::prelude::*;
use crate::oid::CommitId;

verus! {

/// A commit, as far as the engine looks at one.
#[derive(Clone, Debug, PartialEq, Eq)]
pub struct Commit {
    /// The commit's own identity.
    pub id: CommitId,
    /// The identities of its parents, first parent first.
    pub parents: Vec<CommitId>,
    /// The message, where it is text.
    pub message: Option<String>,
    /// The first paragraph of the message on one line, where it is text.
    pub summary: Option<String>,
}

/// The mathematical value of a [`Commit`].
pub struct CommitView {
    pub id: Seq<u8>,
    pub parents: Seq<Seq<u8>>,
    pub message: Option<Seq<char>>,
    pub summary: Option<Seq<char>>,
}

/// The view of an optional string.
pub open spec fn opt_text(s: Option<String>) -> Option<Seq<char>> {
    match s {
        Some(t) => Some(t@),
        None => None,
    }
}

/// The views of a list of identities.
pub open spec fn ids_view(ids: Seq<CommitId>) -> Seq<Seq<u8>> {
    ids.map_values(|id: CommitId| id@)
}

impl View for Commit {
    type V = CommitView;

    open spec fn view(&self) -> CommitView {
        CommitView {
            id: self.id@,
            parents: ids_view(self.parents@),
            message: opt_text(self.message),
            summary: opt_text(self.summary),
        }
    }
}

} // verus!
