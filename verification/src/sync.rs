//! Finding the commits to replay on a branch, and bootstrapping a branch.
//! Every function here decides; the caller carries the decision out on the
//! repository and hands back what it read there.

use vstd::prelude::*;
use vstd::string::StringExecFns;
use crate::app::Options;
use crate::commit::{ids_view, Commit};
use crate::commits_map::{CommitsMap, Ledger, SyncedCommit};
use crate::error::Error;
use crate::oid::{bytes_of_hex, is_hex_id, oid_refusal, read_tag_id, CommitId};
use crate::tag::{commit_tag, format_ripit_tag, retrieve_ripit_tag_or_throw, tag_text};

verus! {

// Finding the commits to replay

/// One step of the walk from the tip of the local branch back to the commit
/// that the replay starts from.
#[derive(Clone, Copy, Debug, PartialEq, Eq)]
pub enum Rewind {
    /// The commit is not uprooted: the remote commit that its tag names is
    /// the anchor, the last remote commit already replayed on this branch.
    Anchor(CommitId),
    /// The commit is uprooted: the walk goes on at its first parent, which
    /// the caller asks the repository for.
    FirstParent,
}

/// Reads one commit of the walk from the tip of the local branch along
/// first parents: the walk ends at the first commit that is not uprooted.
pub fn rewind(commit: &Commit) -> (r: Result<Rewind, Error>)
    ensures
        match commit_tag(commit@) {
            None => r == Err::<Rewind, Error>(Error::TagMissing),
            Some((text, false)) => if is_hex_id(text) {
                r matches Ok(Rewind::Anchor(id)) && id@ == bytes_of_hex(text)
            } else {
                r matches Err(Error::Git { message }) && Some(message@) == oid_refusal(text)
            },
            Some((_, true)) => r == Ok::<Rewind, Error>(Rewind::FirstParent),
        },
{
    let (text, uprooted) = match retrieve_ripit_tag_or_throw(commit) {
        Ok(tag) => tag,
        Err(e) => {
            return Err(e);
        },
    };
    if uprooted {
        return Ok(Rewind::FirstParent);
    }
    match read_tag_id(text.as_str()) {
        Ok(id) => Ok(Rewind::Anchor(id)),
        Err(message) => Err(Error::Git { message }),
    }
}

/// The commits of `walk` that have no local counterpart, in the order of
/// `walk`.
pub open spec fn pending(walk: Seq<Seq<u8>>, ledger: Ledger) -> Seq<Seq<u8>>
    decreases walk.len(),
{
    if walk.len() == 0 {
        Seq::empty()
    } else if ledger.dom().contains(walk.last()) {
        pending(walk.drop_last(), ledger)
    } else {
        pending(walk.drop_last(), ledger).push(walk.last())
    }
}

/// A commit is pending exactly when the walk holds it and the ledger does
/// not.
pub proof fn lemma_pending_members(walk: Seq<Seq<u8>>, ledger: Ledger, id: Seq<u8>)
    ensures
        pending(walk, ledger).contains(id) <==> walk.contains(id) && !ledger.dom().contains(id),
    decreases walk.len(),
{
    if walk.len() > 0 {
        let front = walk.drop_last();
        lemma_pending_members(front, ledger, id);
        let rest = pending(front, ledger);
        if walk.contains(id) {
            let i = choose|i: int| 0 <= i < walk.len() && walk[i] == id;
            if i < front.len() {
                assert(front[i] == id);
            }
        }
        if front.contains(id) {
            let i = choose|i: int| 0 <= i < front.len() && front[i] == id;
            assert(walk[i] == id);
        }
        assert(walk[walk.len() - 1] == walk.last());
        if !ledger.dom().contains(walk.last()) {
            let all = rest.push(walk.last());
            assert(all[rest.len() as int] == walk.last());
            if all.contains(id) {
                let i = choose|i: int| 0 <= i < all.len() && all[i] == id;
                if i < rest.len() {
                    assert(rest[i] == id);
                }
            }
            if rest.contains(id) {
                let i = choose|i: int| 0 <= i < rest.len() && rest[i] == id;
                assert(all[i] == id);
            }
        }
    }
}

/// The pending commits keep the order of the walk: they are the walk with
/// some commits left out.
pub proof fn lemma_pending_in_order(walk: Seq<Seq<u8>>, ledger: Ledger) -> (at: Seq<int>)
    ensures
        at.len() == pending(walk, ledger).len(),
        forall|i: int|
            0 <= i < at.len() ==> 0 <= #[trigger] at[i] < walk.len() && walk[at[i]] == pending(
                walk,
                ledger,
            )[i],
        forall|i: int, j: int| 0 <= i < j < at.len() ==> at[i] < at[j],
    decreases walk.len(),
{
    if walk.len() == 0 {
        Seq::empty()
    } else {
        let front = lemma_pending_in_order(walk.drop_last(), ledger);
        if ledger.dom().contains(walk.last()) {
            front
        } else {
            front.push(walk.len() - 1)
        }
    }
}

/// Nothing is pending exactly when every commit of the walk has a local
/// counterpart: a second run over the same remote history replays nothing.
pub proof fn lemma_nothing_pending(walk: Seq<Seq<u8>>, ledger: Ledger)
    ensures
        pending(walk, ledger).len() == 0 <==> forall|i: int|
            0 <= i < walk.len() ==> ledger.dom().contains(#[trigger] walk[i]),
    decreases walk.len(),
{
    if walk.len() > 0 {
        let front = walk.drop_last();
        lemma_nothing_pending(front, ledger);
        if pending(walk, ledger).len() == 0 {
            assert forall|i: int| 0 <= i < walk.len() implies ledger.dom().contains(
                #[trigger] walk[i],
            ) by {
                if i < front.len() {
                    assert(front[i] == walk[i]);
                }
            }
        } else if forall|i: int| 0 <= i < walk.len() ==> ledger.dom().contains(#[trigger] walk[i]) {
            assert(ledger.dom().contains(walk[walk.len() - 1]));
            assert forall|i: int| 0 <= i < front.len() implies ledger.dom().contains(
                #[trigger] front[i],
            ) by {
                assert(front[i] == walk[i]);
            }
        }
    }
}

/// The commits to replay: those of `walk`, the remote commits between the
/// anchor and the tip of the remote branch with ancestors first, that have
/// no local counterpart yet.
pub fn find_commits_to_sync(walk: &Vec<CommitId>, commits_map: &CommitsMap) -> (commits: Vec<
    CommitId,
>)
    ensures
        ids_view(commits@) == pending(ids_view(walk@), commits_map@),
{
    let mut commits: Vec<CommitId> = Vec::new();
    let mut i: usize = 0;
    while i < walk.len()
        invariant
            i <= walk.len(),
            ids_view(commits@) == pending(ids_view(walk@).take(i as int), commits_map@),
        decreases walk.len() - i,
    {
        proof {
            assert(ids_view(walk@).take(i + 1).drop_last() =~= ids_view(walk@).take(i as int));
            assert(ids_view(walk@).take(i + 1).last() == walk@[i as int]@);
        }
        if !commits_map.contains_key(&walk[i]) {
            let ghost before = commits@;
            commits.push(walk[i]);
            assert(ids_view(commits@) =~= ids_view(before).push(walk@[i as int]@));
        }
        i += 1;
    }
    assert(ids_view(walk@).take(walk.len() as int) =~= ids_view(walk@));
    commits
}

/// What to do with the commits that were found for a branch.
#[derive(Clone, Copy, Debug, PartialEq, Eq)]
pub enum SyncStep {
    /// There is nothing to replay: the repository is left as it is.
    UpToDate,
    /// The operator has to confirm before anything is replayed.
    Confirm,
    /// The commits are replayed in their order.
    Replay,
}

/// Decides what a run does with the commits to replay on one branch.
pub fn sync_branch_with_remote(commits: &Vec<CommitId>, opts: &Options) -> (step: SyncStep)
    ensures
        step == if commits.len() == 0 {
            SyncStep::UpToDate
        } else if opts.yes {
            SyncStep::Replay
        } else {
            SyncStep::Confirm
        },
{
    if commits.len() == 0 {
        SyncStep::UpToDate
    } else if opts.yes {
        SyncStep::Replay
    } else {
        SyncStep::Confirm
    }
}

// Bootstrapping a branch

/// The message of the commit that bootstraps a branch from the remote commit
/// `id` of the remote `remote`.
pub open spec fn bootstrap_message(remote: Seq<char>, id: Seq<u8>) -> Seq<char> {
    "Bootstrap repository from remote "@ + remote + "\n\n"@ + tag_text(id, false) + "\n"@
}

/// The commit that bootstraps a branch.
#[derive(Clone, Debug, PartialEq, Eq)]
pub struct BootstrapCommit {
    /// Its message, which carries the tag of the remote commit.
    pub message: String,
    /// Its parents: the tip of the local history, where there is one.
    pub parents: Vec<CommitId>,
}

/// The commit that bootstraps a branch from `remote_commit`: a snapshot of
/// its tree on top of `head`, the tip of the local history.
pub fn commit_bootstrap(remote_commit: &CommitId, remote: &str, head: Option<CommitId>) -> (commit:
    BootstrapCommit)
    ensures
        commit.message@ == bootstrap_message(remote@, remote_commit@),
        ids_view(commit.parents@) == match head {
            Some(tip) => seq![tip@],
            None => Seq::<Seq<u8>>::empty(),
        },
{
    let mut message = "Bootstrap repository from remote ".to_owned();
    message.append(remote);
    message.append("\n\n");
    let tag = format_ripit_tag(remote_commit, false);
    message.append(tag.as_str());
    message.append("\n");
    let mut parents: Vec<CommitId> = Vec::new();
    if let Some(tip) = head {
        parents.push(tip);
    }
    proof {
        assert(ids_view(parents@) =~= match head {
            Some(tip) => seq![tip@],
            None => Seq::<Seq<u8>>::empty(),
        });
    }
    BootstrapCommit { message, parents }
}

/// How a branch is bootstrapped.
#[derive(Clone, Copy, Debug, PartialEq, Eq)]
pub enum Bootstrap {
    /// Another branch was bootstrapped from the same remote commit: the
    /// branch is set on that local commit.
    Reuse(CommitId),
    /// A commit has to be created.
    Create,
}

/// Decides how the branch whose remote tip is `remote_commit` is
/// bootstrapped.
pub fn bootstrap_branch_with_remote(remote_commit: &CommitId, commits_map: &CommitsMap) -> (r:
    Bootstrap)
    ensures
        match r {
            Bootstrap::Reuse(local) => commits_map@.dom().contains(remote_commit@) && local@
                == commits_map@[remote_commit@].commit,
            Bootstrap::Create => !commits_map@.dom().contains(remote_commit@),
        },
{
    match commits_map.get(remote_commit) {
        Some(entry) => Bootstrap::Reuse(entry.commit),
        None => Bootstrap::Create,
    }
}

/// The ledger entry for the commit `local` that bootstraps a branch. A
/// bootstrap commit is never uprooted.
pub fn bootstrapped(local: CommitId) -> (entry: SyncedCommit)
    ensures
        entry == (SyncedCommit { commit: local, uprooted: false }),
{
    SyncedCommit { commit: local, uprooted: false }
}

/// Whether the head, a reference of the name `name` that is a branch where
/// `is_branch` is set, is the local branch `branch`.
pub fn head_is_branch(is_branch: bool, name: Option<&str>, branch: &str) -> (r: bool)
    ensures
        r == (is_branch && (name matches Some(n) && n@ == crate::app::refname_of(branch@))),
{
    if !is_branch {
        return false;
    }
    match name {
        Some(n) => {
            let mut refname = "refs/heads/".to_owned();
            refname.append(branch);
            let held = n.to_owned();
            held == refname
        },
        None => false,
    }
}

/// Fails where the working tree differs from the head in `deltas` places.
pub fn check_local_diff(deltas: usize) -> (r: Result<(), Error>)
    ensures
        r == if deltas > 0 {
            Err::<(), Error>(Error::HasLocalChanges)
        } else {
            Ok::<(), Error>(())
        },
{
    if deltas > 0 {
        Err(Error::HasLocalChanges)
    } else {
        Ok(())
    }
}

} // verus!
