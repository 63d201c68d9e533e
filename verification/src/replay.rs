//! The replay engine: how one remote commit becomes a local commit. Every
//! function here decides; the caller carries the decision out on the
//! repository.

use vstd::prelude::*;
use crate::app::Options;
use crate::commit::{ids_view, Commit, CommitView};
use crate::commits_map::{tagged_entry, tagged_remote, CommitsMap, Ledger, SyncedCommit, SyncedView};
use crate::error::Error;
use crate::message::{
    composed_message, ends_with_feed, filtered_message, filters_of, lemma_message_kept,
    line_feed, lines_of, plain_lines, update_commit_msg, with_trailer, Filters,
};
use crate::oid::{hex_of, lemma_hex_round_trip, CommitId, OID_LEN};
use crate::tag::{
    commit_tag, format_ripit_tag, lemma_tag_literals, lemma_tag_round_trip, parse_tag, tag_prefix,
    tag_text, uprooted_mark,
};
use crate::text::{first_occurrence, lemma_find_from, lemma_first_occurrence_is, occurs_at};

verus! {

// Resolving the local parents of a remote commit

/// The local counterparts of those of `parents` that have one, in the order
/// of `parents`.
pub open spec fn resolved_parents(parents: Seq<Seq<u8>>, ledger: Ledger) -> Seq<Seq<u8>>
    decreases parents.len(),
{
    if parents.len() == 0 {
        Seq::empty()
    } else if ledger.dom().contains(parents.last()) {
        resolved_parents(parents.drop_last(), ledger).push(ledger[parents.last()].commit)
    } else {
        resolved_parents(parents.drop_last(), ledger)
    }
}

/// Whether every one of `parents` that has a local counterpart has an
/// uprooted one.
pub open spec fn all_resolved_uprooted(parents: Seq<Seq<u8>>, ledger: Ledger) -> bool {
    forall|i: int|
        0 <= i < parents.len() && ledger.dom().contains(#[trigger] parents[i])
            ==> ledger[parents[i]].uprooted
}

/// Whether `parents[k]` is the first parent without a local counterpart.
pub open spec fn first_unknown(parents: Seq<Seq<u8>>, ledger: Ledger, k: int) -> bool {
    &&& 0 <= k < parents.len()
    &&& !ledger.dom().contains(parents[k])
    &&& forall|j: int| 0 <= j < k ==> ledger.dom().contains(#[trigger] parents[j])
}

/// Whether every parent has a local counterpart.
pub open spec fn all_known(parents: Seq<Seq<u8>>, ledger: Ledger) -> bool {
    forall|i: int| 0 <= i < parents.len() ==> ledger.dom().contains(#[trigger] parents[i])
}

/// The parents of the local commit, given the resolved ones: those, or the
/// tip of the branch where none was resolved.
pub open spec fn parents_or_tip(resolved: Seq<Seq<u8>>, tip: Seq<u8>) -> Seq<Seq<u8>> {
    if resolved.len() == 0 {
        seq![tip]
    } else {
        resolved
    }
}

/// The parents of the local commit: the resolved ones, or the tip of the
/// branch where none was resolved.
pub open spec fn local_parents(parents: Seq<Seq<u8>>, ledger: Ledger, tip: Seq<u8>) -> Seq<
    Seq<u8>,
> {
    parents_or_tip(resolved_parents(parents, ledger), tip)
}

/// With every parent known, the resolved parents are the counterparts of the
/// parents, one for one.
pub proof fn lemma_resolved_all_known(parents: Seq<Seq<u8>>, ledger: Ledger)
    requires
        all_known(parents, ledger),
    ensures
        resolved_parents(parents, ledger).len() == parents.len(),
        forall|i: int|
            0 <= i < parents.len() ==> #[trigger] resolved_parents(parents, ledger)[i]
                == ledger[parents[i]].commit,
    decreases parents.len(),
{
    if parents.len() > 0 {
        let front = parents.drop_last();
        assert forall|i: int| 0 <= i < front.len() implies ledger.dom().contains(
            #[trigger] front[i],
        ) by {
            assert(front[i] == parents[i]);
        }
        lemma_resolved_all_known(front, ledger);
        assert(ledger.dom().contains(parents[parents.len() - 1]));
        assert forall|i: int| 0 <= i < parents.len() implies #[trigger] resolved_parents(
            parents,
            ledger,
        )[i] == ledger[parents[i]].commit by {
            if i < front.len() {
                assert(front[i] == parents[i]);
            }
        }
    }
}

/// The uproot rule: a commit is replayed as uprooted exactly when none of its
/// parents was resolved, or every resolved one is uprooted itself.
pub proof fn lemma_uproot_rule(parents: Seq<Seq<u8>>, ledger: Ledger)
    ensures
        resolved_parents(parents, ledger).len() == 0 ==> all_resolved_uprooted(parents, ledger),
        resolved_parents(parents, ledger).len() == 0 <==> forall|i: int|
            0 <= i < parents.len() ==> !ledger.dom().contains(#[trigger] parents[i]),
    decreases parents.len(),
{
    if parents.len() > 0 {
        let front = parents.drop_last();
        lemma_uproot_rule(front, ledger);
        if resolved_parents(parents, ledger).len() == 0 {
            assert forall|i: int| 0 <= i < parents.len() implies !ledger.dom().contains(
                #[trigger] parents[i],
            ) by {
                if i < front.len() {
                    assert(front[i] == parents[i]);
                }
            }
        } else if forall|i: int|
            0 <= i < parents.len() ==> !ledger.dom().contains(#[trigger] parents[i]) {
            assert(!ledger.dom().contains(parents[parents.len() - 1]));
            assert forall|i: int| 0 <= i < front.len() implies !ledger.dom().contains(
                #[trigger] front[i],
            ) by {
                assert(front[i] == parents[i]);
            }
        }
    }
}

/// Leaving out the last parent: every resolved parent is uprooted exactly
/// when every resolved one before the last is, and the last one too where it
/// is resolved. And every parent is known exactly when every one before the
/// last is, and the last one too.
proof fn lemma_last_parent(parents: Seq<Seq<u8>>, ledger: Ledger)
    requires
        parents.len() > 0,
    ensures
        all_resolved_uprooted(parents, ledger) <==> all_resolved_uprooted(
            parents.drop_last(),
            ledger,
        ) && (ledger.dom().contains(parents.last()) ==> ledger[parents.last()].uprooted),
        all_known(parents, ledger) <==> all_known(parents.drop_last(), ledger)
            && ledger.dom().contains(parents.last()),
{
    let front = parents.drop_last();
    let n = front.len() as int;
    assert(parents[n] == parents.last());
    assert forall|i: int| 0 <= i < n implies front[i] == parents[i] by {}
    if all_resolved_uprooted(front, ledger) && (ledger.dom().contains(parents.last())
        ==> ledger[parents.last()].uprooted) {
        assert forall|i: int|
            0 <= i < parents.len() && ledger.dom().contains(
                #[trigger] parents[i],
            ) implies ledger[parents[i]].uprooted by {
            if i < n {
                assert(front[i] == parents[i]);
            }
        }
    }
    if all_resolved_uprooted(parents, ledger) {
        assert forall|i: int|
            0 <= i < n && ledger.dom().contains(#[trigger] front[i]) implies ledger[front[i]].uprooted by {
            assert(front[i] == parents[i]);
        }
    }
    if all_known(front, ledger) && ledger.dom().contains(parents.last()) {
        assert forall|i: int| 0 <= i < parents.len() implies ledger.dom().contains(
            #[trigger] parents[i],
        ) by {
            if i < n {
                assert(front[i] == parents[i]);
            }
        }
    }
    if all_known(parents, ledger) {
        assert forall|i: int| 0 <= i < n implies ledger.dom().contains(#[trigger] front[i]) by {
            assert(front[i] == parents[i]);
        }
    }
}

/// The parents found for a remote commit.
pub struct ResolvedParents {
    /// The local counterparts of the parents that have one, in order.
    pub commits: Vec<CommitId>,
    /// Whether the replayed commit is uprooted.
    pub uprooted: bool,
}

/// Looks up the parents of a remote commit in the ledger. A parent without a
/// local counterpart is left out where `uproot` is set, and is an error where
/// it is not.
pub fn resolve_parents(commit: &Commit, commits_map: &CommitsMap, uproot: bool) -> (r: Result<
    ResolvedParents,
    Error,
>)
    ensures
        r is Ok <==> uproot || all_known(commit@.parents, commits_map@),
        match r {
            Ok(found) => {
                &&& ids_view(found.commits@) == resolved_parents(commit@.parents, commits_map@)
                &&& found.uprooted == all_resolved_uprooted(commit@.parents, commits_map@)
            },
            Err(e) => exists|k: int|
                first_unknown(commit@.parents, commits_map@, k) && e == (Error::UnknownParent {
                    commit_id: commit.id,
                    parent_id: #[trigger] commit.parents@[k],
                }),
        },
{
    let mut commits: Vec<CommitId> = Vec::new();
    let mut uprooted = true;
    let mut i: usize = 0;
    let ghost parents = commit@.parents;
    let ghost ledger = commits_map@;
    while i < commit.parents.len()
        invariant
            i <= commit.parents.len(),
            parents == commit@.parents,
            parents.len() == commit.parents.len(),
            ledger == commits_map@,
            ids_view(commits@) == resolved_parents(parents.take(i as int), ledger),
            uprooted == all_resolved_uprooted(parents.take(i as int), ledger),
            all_known(parents.take(i as int), ledger) || uproot,
        decreases commit.parents.len() - i,
    {
        proof {
            assert(parents.take(i + 1).drop_last() =~= parents.take(i as int));
            assert(parents.take(i + 1).last() == commit.parents@[i as int]@);
            lemma_last_parent(parents.take(i + 1), ledger);
        }
        match commits_map.get(&commit.parents[i]) {
            Some(entry) => {
                let ghost found = commits@;
                commits.push(entry.commit);
                if !entry.uprooted {
                    uprooted = false;
                }
                assert(ids_view(commits@) =~= ids_view(found).push(entry.commit@));
            },
            None => {
                if !uproot {
                    proof {
                        assert forall|j: int| 0 <= j < i implies ledger.dom().contains(
                            #[trigger] parents[j],
                        ) by {
                            assert(parents.take(i as int)[j] == parents[j]);
                        }
                        assert(first_unknown(parents, ledger, i as int));
                    }
                    return Err(
                        Error::UnknownParent {
                            commit_id: commit.id,
                            parent_id: commit.parents[i],
                        },
                    );
                }
            },
        }
        i += 1;
    }
    assert(parents.take(i as int) =~= parents);
    Ok(ResolvedParents { commits, uprooted })
}


// Replaying one remote commit

/// Where the head stands while a commit is replayed.
#[derive(Clone, Copy, Debug, PartialEq, Eq)]
pub enum Checkout {
    /// On the branch: the new commit moves the branch.
    Branch,
    /// Detached at a commit: the new commit moves the head alone.
    Detached(CommitId),
}

/// The mathematical value of a [`Checkout`].
pub enum CheckoutView {
    Branch,
    Detached(Seq<u8>),
}

impl View for Checkout {
    type V = CheckoutView;

    open spec fn view(&self) -> CheckoutView {
        match self {
            Checkout::Branch => CheckoutView::Branch,
            Checkout::Detached(id) => CheckoutView::Detached(id@),
        }
    }
}

/// How one remote commit is replayed. The caller checks out `checkout`,
/// forcing the working tree; cherry-picks the remote commit with `mainline`;
/// and looks for conflicts. With conflicts it persists
/// [`ReplayPlan::pending_merge`] and stops with
/// [`ReplayPlan::conflict_error`], which it tells what it could persist. Without, it commits the index with the
/// remote commit's author and committer, `message` and `parents`, moving the
/// reference that [`ReplayPlan::update_ref`] names; moves the branch to the
/// new commit and attaches the head to it where `repoint_branch` is set;
/// forces the checkout of the head and clears what the cherry-pick left
/// behind. [`ReplayPlan::synced`] is then the entry for the ledger.
#[derive(Clone, Debug, PartialEq, Eq)]
pub struct ReplayPlan {
    pub checkout: Checkout,
    /// The parent that the cherry-pick takes the difference against, counted
    /// from one, for a commit with several parents.
    pub mainline: Option<u32>,
    /// The tag of the new commit.
    pub tag: String,
    /// The message of the new commit.
    pub message: String,
    /// The parents of the new commit, first parent first. Never empty.
    pub parents: Vec<CommitId>,
    /// Whether the new commit is uprooted.
    pub uprooted: bool,
    /// Whether the branch has to be moved to the new commit afterwards: the
    /// head was detached, and a parent other than the first is the tip of
    /// the branch.
    pub repoint_branch: bool,
    /// The second parent that a commit solving the conflicts must get.
    pub merge_head: Option<CommitId>,
    /// The one-line summary of the remote commit.
    pub summary: String,
}

/// The mathematical value of a [`ReplayPlan`].
pub struct PlanView {
    pub checkout: CheckoutView,
    pub mainline: Option<u32>,
    pub tag: Seq<char>,
    pub message: Seq<char>,
    pub parents: Seq<Seq<u8>>,
    pub uprooted: bool,
    pub repoint_branch: bool,
    pub merge_head: Option<Seq<u8>>,
    pub summary: Seq<char>,
}

/// The view of an optional identity.
pub open spec fn opt_id(id: Option<CommitId>) -> Option<Seq<u8>> {
    match id {
        Some(id) => Some(id@),
        None => None,
    }
}

impl View for ReplayPlan {
    type V = PlanView;

    open spec fn view(&self) -> PlanView {
        PlanView {
            checkout: self.checkout@,
            mainline: self.mainline,
            tag: self.tag@,
            message: self.message@,
            parents: ids_view(self.parents@),
            uprooted: self.uprooted,
            repoint_branch: self.repoint_branch,
            merge_head: opt_id(self.merge_head),
            summary: self.summary@,
        }
    }
}

/// The message of the local commit: the composed message where the remote
/// message is text, the bare tag where it is not.
pub open spec fn replay_message(
    message: Option<Seq<char>>,
    tag: Seq<char>,
    filters: Filters,
) -> Seq<char> {
    match message {
        Some(orig) => composed_message(orig, tag, filters),
        None => tag,
    }
}

/// Whether `tip` is among `parents`.
pub open spec fn has_parent(parents: Seq<Seq<u8>>, tip: Seq<u8>) -> bool {
    exists|i: int| 0 <= i < parents.len() && #[trigger] parents[i] == tip
}

/// The plan for replaying `commit` onto the local parents `local`.
pub open spec fn plan_onto(
    commit: CommitView,
    local: Seq<Seq<u8>>,
    is_merge: bool,
    uprooted: bool,
    tip: Seq<u8>,
    filters: Filters,
) -> PlanView
    recommends
        local.len() > 0,
{
    PlanView {
        checkout: if local[0] == tip {
            CheckoutView::Branch
        } else {
            CheckoutView::Detached(local[0])
        },
        mainline: if is_merge {
            Some(1u32)
        } else {
            None
        },
        tag: tag_text(commit.id, uprooted),
        message: replay_message(commit.message, tag_text(commit.id, uprooted), filters),
        parents: local,
        uprooted,
        repoint_branch: local[0] != tip && has_parent(local, tip),
        merge_head: if is_merge && local.len() > 1 {
            Some(local[1])
        } else {
            None
        },
        summary: match commit.summary {
            Some(s) => s,
            None => Seq::empty(),
        },
    }
}

/// The plan for replaying `commit` with the ledger as it stands.
pub open spec fn replay_plan(
    commit: CommitView,
    ledger: Ledger,
    tip: Seq<u8>,
    filters: Filters,
) -> PlanView {
    plan_onto(
        commit,
        local_parents(commit.parents, ledger, tip),
        commit.parents.len() > 1,
        all_resolved_uprooted(commit.parents, ledger),
        tip,
        filters,
    )
}

/// Merge fidelity: a remote merge of two commits that both have a local
/// counterpart is replayed onto exactly those two counterparts, in the same
/// order, with the cherry-pick taking the difference against the first
/// parent.
pub proof fn lemma_merge_fidelity(
    commit: CommitView,
    ledger: Ledger,
    tip: Seq<u8>,
    filters: Filters,
)
    requires
        commit.parents.len() == 2,
        ledger.dom().contains(commit.parents[0]),
        ledger.dom().contains(commit.parents[1]),
    ensures
        replay_plan(commit, ledger, tip, filters).parents == seq![
            ledger[commit.parents[0]].commit,
            ledger[commit.parents[1]].commit,
        ],
        replay_plan(commit, ledger, tip, filters).mainline == Some(1u32),
        replay_plan(commit, ledger, tip, filters).merge_head == Some(
            ledger[commit.parents[1]].commit,
        ),
{
    lemma_resolved_all_known(commit.parents, ledger);
    let resolved = resolved_parents(commit.parents, ledger);
    assert(resolved =~= seq![ledger[commit.parents[0]].commit, ledger[commit.parents[1]].commit]);
}

/// The uproot rule, of the plan: the new commit is uprooted exactly when
/// every parent that was resolved is uprooted, which includes the case
/// that none was resolved.
pub proof fn lemma_plan_uprooted(
    commit: CommitView,
    ledger: Ledger,
    tip: Seq<u8>,
    filters: Filters,
)
    ensures
        replay_plan(commit, ledger, tip, filters).uprooted <==> (resolved_parents(
            commit.parents,
            ledger,
        ).len() == 0 || all_resolved_uprooted(commit.parents, ledger)),
{
    lemma_uproot_rule(commit.parents, ledger);
}

/// A message that does not hold the opening literal of a tag reads back,
/// once a tag is appended as its trailer, as that tag.
pub proof fn lemma_trailer_reads_back(msg: Seq<char>, id: Seq<u8>, uprooted: bool)
    requires
        id.len() == OID_LEN,
        first_occurrence(msg, tag_prefix()) is None,
    ensures
        parse_tag(with_trailer(msg, tag_text(id, uprooted))) == Some((hex_of(id), uprooted)),
{
    lemma_tag_literals();
    reveal_strlit("rip-it: ");
    let prefix = tag_prefix();
    let tag = tag_text(id, uprooted);
    let full = with_trailer(msg, tag);
    let start: int = if ends_with_feed(msg) {
        msg.len() as int + 1
    } else {
        msg.len() as int + 2
    };
    assert forall|k: int| 0 <= k < 8 implies prefix[k] != line_feed() by {}
    assert(full.subrange(start, start + 8) =~= prefix);
    lemma_find_from(msg, prefix, 0);
    assert forall|j: int| 0 <= j < start implies !occurs_at(full, prefix, j) by {
        if occurs_at(full, prefix, j) {
            let found = full.subrange(j, j + 8);
            if j + 8 <= msg.len() {
                assert(msg.subrange(j, j + 8) =~= found);
                assert(occurs_at(msg, prefix, j));
            } else if j <= msg.len() {
                assert(found[msg.len() - j] == full[msg.len() as int]);
                assert(full[msg.len() as int] == line_feed());
            } else {
                assert(found[0] == full[j]);
                assert(full[j] == line_feed());
            }
        }
    }
    lemma_first_occurrence_is(full, prefix, start);
    assert(full.subrange(start + 8, start + 48) =~= hex_of(id));
    if uprooted {
        assert(full.subrange(start + 48, start + 57) =~= uprooted_mark());
    }
}

/// A replayed commit names its remote commit: where the filtered remote
/// message does not itself hold the opening literal of a tag, the message of
/// the local commit reads back as the tag of the remote commit, and a later
/// run records the local commit under the remote commit's identity, with
/// the flag it was replayed with.
pub proof fn lemma_replayed_commit_is_tagged(
    commit: CommitView,
    ledger: Ledger,
    tip: Seq<u8>,
    filters: Filters,
    local: CommitView,
)
    requires
        commit.id.len() == OID_LEN,
        commit.message matches Some(orig) ==> first_occurrence(
            filtered_message(orig, filters),
            tag_prefix(),
        ) is None,
        local.message == Some(replay_plan(commit, ledger, tip, filters).message),
    ensures
        commit_tag(local) == Some(
            (hex_of(commit.id), replay_plan(commit, ledger, tip, filters).uprooted),
        ),
        tagged_remote(local) == Some(commit.id),
        tagged_entry(local) == (SyncedView {
            commit: local.id,
            uprooted: replay_plan(commit, ledger, tip, filters).uprooted,
        }),
{
    let uprooted = replay_plan(commit, ledger, tip, filters).uprooted;
    match commit.message {
        Some(orig) => {
            lemma_trailer_reads_back(filtered_message(orig, filters), commit.id, uprooted);
        },
        None => {
            lemma_tag_round_trip(commit.id, uprooted);
        },
    }
    lemma_hex_round_trip(commit.id);
}

/// A remote message of plain lines, none of which the filters exclude, is
/// replayed as it is: the message of the local commit is the remote message,
/// an empty line, the tag of the remote commit and a line feed.
pub proof fn lemma_plan_message_kept(
    commit: CommitView,
    ledger: Ledger,
    tip: Seq<u8>,
    filters: Filters,
    msg: Seq<char>,
)
    requires
        commit.message == Some(msg),
        plain_lines(msg),
        forall|i: int|
            0 <= i < lines_of(msg).len() ==> !filters.matched.contains(#[trigger] lines_of(msg)[i]),
    ensures
        replay_plan(commit, ledger, tip, filters).message == (msg.push(line_feed()).push(
            line_feed(),
        ) + tag_text(commit.id, replay_plan(commit, ledger, tip, filters).uprooted)).push(
            line_feed(),
        ),
{
    lemma_message_kept(
        msg,
        tag_text(commit.id, all_resolved_uprooted(commit.parents, ledger)),
        filters,
    );
}

/// What is left for the operator when a replay stops on conflicts.
#[derive(Clone, Debug, PartialEq, Eq)]
pub struct PendingMerge {
    /// The message of the commit that solves the conflicts.
    pub composed_message: String,
    /// The second parent of that commit, where it is a merge.
    pub second_parent_id: Option<CommitId>,
}

/// The mathematical value of a [`PendingMerge`].
pub struct PendingView {
    pub composed_message: Seq<char>,
    pub second_parent_id: Option<Seq<u8>>,
}

impl View for PendingMerge {
    type V = PendingView;

    open spec fn view(&self) -> PendingView {
        PendingView {
            composed_message: self.composed_message@,
            second_parent_id: opt_id(self.second_parent_id),
        }
    }
}

/// What a replay that stops on conflicts leaves for the operator: the
/// message that the replay would have committed, and the second parent of
/// a merge.
pub open spec fn pending_of(plan: PlanView) -> PendingView {
    PendingView { composed_message: plan.message, second_parent_id: plan.merge_head }
}

/// The parents of the commit that solves the conflicts: the commit that was
/// checked out, and the pending second parent where there is one.
pub open spec fn resolution_parents(plan: PlanView) -> Seq<Seq<u8>> {
    match pending_of(plan).second_parent_id {
        Some(second) => seq![plan.parents[0], second],
        None => seq![plan.parents[0]],
    }
}

/// Conflict pause and resume: the commit that solves the conflicts gets the
/// message and the parents that the replay would have given it without
/// conflicts. This holds of a commit with at most two remote parents.
pub proof fn lemma_resolution_matches(
    commit: CommitView,
    ledger: Ledger,
    tip: Seq<u8>,
    filters: Filters,
)
    requires
        commit.parents.len() <= 2,
    ensures
        pending_of(replay_plan(commit, ledger, tip, filters)).composed_message == replay_message(
            commit.message,
            tag_text(commit.id, all_resolved_uprooted(commit.parents, ledger)),
            filters,
        ),
        resolution_parents(replay_plan(commit, ledger, tip, filters)) == local_parents(
            commit.parents,
            ledger,
            tip,
        ),
{
    lemma_resolved_len(commit.parents, ledger);
    let plan = replay_plan(commit, ledger, tip, filters);
    assert(resolution_parents(plan) =~= plan.parents);
}

/// No more parents are resolved than there are.
pub proof fn lemma_resolved_len(parents: Seq<Seq<u8>>, ledger: Ledger)
    ensures
        resolved_parents(parents, ledger).len() <= parents.len(),
    decreases parents.len(),
{
    if parents.len() > 0 {
        lemma_resolved_len(parents.drop_last(), ledger);
    }
}

fn is_among(parents: &Vec<CommitId>, tip: &CommitId) -> (r: bool)
    ensures
        r == has_parent(ids_view(parents@), tip@),
{
    let mut i: usize = 0;
    while i < parents.len()
        invariant
            i <= parents.len(),
            forall|j: int| 0 <= j < i ==> ids_view(parents@)[j] != tip@,
        decreases parents.len() - i,
    {
        if parents[i].same(tip) {
            assert(ids_view(parents@)[i as int] == tip@);
            return true;
        }
        i += 1;
    }
    false
}

/// Plans the replay of `commit` onto `local_parents`, or onto the tip of
/// the branch where there is none: where the head goes, how the cherry-pick
/// is run, and what the new commit holds.
pub fn do_cherrypick(
    commit: &Commit,
    local_parents: Vec<CommitId>,
    is_merge: bool,
    uprooted: bool,
    branch_tip: &CommitId,
    opts: &Options,
) -> (plan: ReplayPlan)
    ensures
        plan@ == plan_onto(
            commit@,
            parents_or_tip(ids_view(local_parents@), branch_tip@),
            is_merge,
            uprooted,
            branch_tip@,
            filters_of(opts.commit_msg_filters),
        ),
{
    let mut parents = local_parents;
    if parents.len() == 0 {
        parents.push(*branch_tip);
        assert(ids_view(parents@) =~= seq![branch_tip@]);
    }
    let update_branch = parents[0].same(branch_tip);
    assert(ids_view(parents@)[0] == parents@[0]@);
    let checkout = if update_branch {
        Checkout::Branch
    } else {
        Checkout::Detached(parents[0])
    };
    let tag = format_ripit_tag(&commit.id, uprooted);
    let message = match &commit.message {
        Some(orig_msg) => update_commit_msg(orig_msg.as_str(), tag.as_str(), opts),
        None => tag.clone(),
    };
    let repoint_branch = !update_branch && is_among(&parents, branch_tip);
    let merge_head = if is_merge && parents.len() > 1 {
        assert(ids_view(parents@)[1] == parents@[1]@);
        Some(parents[1])
    } else {
        None
    };
    let summary = match &commit.summary {
        Some(s) => s.clone(),
        None => String::new(),
    };
    ReplayPlan {
        checkout,
        mainline: if is_merge {
            Some(1u32)
        } else {
            None
        },
        tag,
        message,
        parents,
        uprooted,
        repoint_branch,
        merge_head,
        summary,
    }
}

/// Plans the replay of `commit` onto the parents that were found for it, on
/// the branch whose tip is `branch_tip`.
pub fn plan_replay(
    commit: &Commit,
    found: ResolvedParents,
    branch_tip: &CommitId,
    opts: &Options,
) -> (plan: ReplayPlan)
    ensures
        plan@ == plan_onto(
            commit@,
            parents_or_tip(ids_view(found.commits@), branch_tip@),
            commit@.parents.len() > 1,
            found.uprooted,
            branch_tip@,
            filters_of(opts.commit_msg_filters),
        ),
{
    let is_merge = commit.parents.len() > 1;
    let ResolvedParents { commits, uprooted } = found;
    do_cherrypick(commit, commits, is_merge, uprooted, branch_tip, opts)
}

/// Plans the replay of the remote commit `commit` on the branch whose tip is
/// `branch_tip`. Fails where a parent has no local counterpart and
/// uprooting is off.
pub fn copy_commit(
    commit: &Commit,
    commits_map: &CommitsMap,
    branch_tip: &CommitId,
    opts: &Options,
) -> (r: Result<ReplayPlan, Error>)
    ensures
        r is Ok <==> opts.uproot || all_known(commit@.parents, commits_map@),
        match r {
            Ok(plan) => plan@ == replay_plan(
                commit@,
                commits_map@,
                branch_tip@,
                filters_of(opts.commit_msg_filters),
            ),
            Err(e) => exists|k: int|
                first_unknown(commit@.parents, commits_map@, k) && e == (Error::UnknownParent {
                    commit_id: commit.id,
                    parent_id: #[trigger] commit.parents@[k],
                }),
        },
{
    match resolve_parents(commit, commits_map, opts.uproot) {
        Ok(found) => Ok(plan_replay(commit, found, branch_tip, opts)),
        Err(e) => Err(e),
    }
}

impl ReplayPlan {
    /// The name of the reference that the new commit moves: the branch where
    /// the head is on it, the head itself where it is detached.
    pub fn update_ref(&self, branch: &crate::app::Branch) -> (name: String)
        ensures
            name@ == match self.checkout {
                Checkout::Branch => branch.refname@,
                Checkout::Detached(_) => "HEAD"@,
            },
    {
        match self.checkout {
            Checkout::Branch => branch.refname.clone(),
            Checkout::Detached(_) => "HEAD".to_owned(),
        }
    }

    /// What to persist when the cherry-pick left conflicts: the message that
    /// the replay would have committed, and the second parent of a merge.
    pub fn pending_merge(&self) -> (pending: PendingMerge)
        ensures
            pending@ == pending_of(self@),
    {
        PendingMerge { composed_message: self.message.clone(), second_parent_id: self.merge_head }
    }

    /// The error that ends a replay on conflicts, given what could be
    /// persisted of [`ReplayPlan::pending_merge`]: the message, and the
    /// second parent where one is pending. Where either could not be
    /// written, nothing tells the operator how to commit, and the run fails
    /// for that; otherwise it stops on the conflicts.
    pub fn conflict_error(&self, message_written: bool, second_parent_written: bool) -> (e: Error)
        ensures
            !message_written || (self.merge_head is Some && !second_parent_written) ==> e
                == Error::CannotSetupMergeCtx,
            message_written && (self.merge_head is None || second_parent_written) ==> (
            e matches Error::HasConflicts { summary } && summary@ == self@.summary),
    {
        if !message_written || (self.merge_head.is_some() && !second_parent_written) {
            Error::CannotSetupMergeCtx
        } else {
            Error::HasConflicts { summary: self.summary.clone() }
        }
    }

    /// The ledger entry for the commit that the replay created.
    pub fn synced(&self, new_commit: CommitId) -> (entry: SyncedCommit)
        ensures
            entry.commit == new_commit,
            entry.uprooted == self.uprooted,
    {
        SyncedCommit { commit: new_commit, uprooted: self.uprooted }
    }
}

} // verus!
