//! A run as a whole: what the replays of a run, one after the other, do to
//! the ledger and to the tip of the branch.

use vstd::prelude::*;
use crate::commit::CommitView;
use crate::commits_map::{ledger_insert, Ledger, SyncedView};
use crate::message::Filters;
use crate::replay::{
    all_resolved_uprooted, local_parents, replay_plan, resolved_parents, PlanView,
};
use crate::sync::{lemma_nothing_pending, lemma_pending_members, pending};
use crate::tag::tag_text;

verus! {

/// The tip of the branch after a replay created `created`: the new commit,
/// where the head was on the branch or the plan moves the branch to it.
pub open spec fn tip_after(plan: PlanView, tip: Seq<u8>, created: Seq<u8>) -> Seq<u8> {
    if plan.checkout is Branch || plan.repoint_branch {
        created
    } else {
        tip
    }
}

/// The ledger and the tip of the branch after the commits of `walk` were
/// replayed in their order, without conflicts, as the commits `created`.
pub open spec fn replayed(
    walk: Seq<CommitView>,
    created: Seq<Seq<u8>>,
    ledger: Ledger,
    tip: Seq<u8>,
    filters: Filters,
) -> (Ledger, Seq<u8>)
    recommends
        walk.len() == created.len(),
    decreases walk.len(),
{
    if walk.len() == 0 || created.len() == 0 {
        (ledger, tip)
    } else {
        let (before, at) = replayed(walk.drop_last(), created.drop_last(), ledger, tip, filters);
        let plan = replay_plan(walk.last(), before, at, filters);
        (
            ledger_insert(
                before,
                walk.last().id,
                SyncedView { commit: created.last(), uprooted: plan.uprooted },
            ),
            tip_after(plan, at, created.last()),
        )
    }
}

/// The plan of the replay number `i` of a run.
pub open spec fn plan_at(
    walk: Seq<CommitView>,
    created: Seq<Seq<u8>>,
    ledger: Ledger,
    tip: Seq<u8>,
    filters: Filters,
    i: int,
) -> PlanView {
    let (before, at) = replayed(walk.take(i), created.take(i), ledger, tip, filters);
    replay_plan(walk[i], before, at, filters)
}

/// Whether `walk` is a line of commits on top of the commit `anchor`: each
/// has one parent, the first has `anchor` and every other has the one
/// before it, and no commit occurs twice.
pub open spec fn linear_on(walk: Seq<CommitView>, anchor: Seq<u8>) -> bool {
    &&& forall|i: int| 0 <= i < walk.len() ==> (#[trigger] walk[i]).parents.len() == 1
    &&& walk.len() > 0 ==> walk[0].parents[0] == anchor
    &&& forall|i: int| 0 < i < walk.len() ==> (#[trigger] walk[i]).parents[0] == walk[i - 1].id
    &&& forall|i: int, j: int|
        0 <= i < j < walk.len() ==> (#[trigger] walk[i]).id != (#[trigger] walk[j]).id
}

/// The tip of the branch before the replay number `i` of a run over a line
/// of commits.
pub open spec fn tip_before(created: Seq<Seq<u8>>, tip: Seq<u8>, i: int) -> Seq<u8> {
    if i <= 0 {
        tip
    } else {
        created[i - 1]
    }
}

proof fn lemma_linear_prefix(
    walk: Seq<CommitView>,
    created: Seq<Seq<u8>>,
    ledger: Ledger,
    tip: Seq<u8>,
    filters: Filters,
    anchor: Seq<u8>,
    k: int,
)
    requires
        walk.len() == created.len(),
        linear_on(walk, anchor),
        ledger.dom().contains(anchor),
        ledger[anchor].commit == tip,
        forall|i: int| 0 <= i < walk.len() ==> !ledger.dom().contains((#[trigger] walk[i]).id),
        0 <= k <= walk.len(),
    ensures
        ({
            let (after, at) = replayed(walk.take(k), created.take(k), ledger, tip, filters);
            &&& at == tip_before(created, tip, k)
            &&& forall|id: Seq<u8>|
                after.dom().contains(id) <==> ledger.dom().contains(id) || exists|j: int|
                    0 <= j < k && (#[trigger] walk[j]).id == id
            &&& forall|id: Seq<u8>| ledger.dom().contains(id) ==> after[id] == ledger[id]
            &&& forall|j: int|
                0 <= j < k ==> after[(#[trigger] walk[j]).id] == (SyncedView {
                    commit: created[j],
                    uprooted: ledger[anchor].uprooted,
                })
        }),
        forall|j: int|
            0 <= j < k ==> {
                let plan = #[trigger] plan_at(walk, created, ledger, tip, filters, j);
                &&& plan.parents == seq![tip_before(created, tip, j)]
                &&& plan.checkout is Branch
                &&& plan.mainline is None
                &&& !plan.repoint_branch
                &&& plan.merge_head is None
                &&& plan.uprooted == ledger[anchor].uprooted
                &&& plan.tag == tag_text(walk[j].id, plan.uprooted)
            },
    decreases k,
{
    if k > 0 {
        lemma_linear_prefix(walk, created, ledger, tip, filters, anchor, k - 1);
        let i = k - 1;
        assert(walk.take(k).drop_last() =~= walk.take(i));
        assert(created.take(k).drop_last() =~= created.take(i));
        assert(walk.take(k).last() == walk[i]);
        assert(created.take(k).last() == created[i]);
        let (before, at) = replayed(walk.take(i), created.take(i), ledger, tip, filters);
        let commit = walk[i];
        let parent = commit.parents[0];
        // the one parent is known, and its counterpart is the tip
        if i == 0 {
            assert(parent == anchor);
        } else {
            assert(parent == walk[i - 1].id);
        }
        assert(before.dom().contains(parent));
        assert(before[parent].commit == at);
        assert(before[parent].uprooted == ledger[anchor].uprooted);
        assert(commit.parents.drop_last() =~= Seq::<Seq<u8>>::empty());
        assert(commit.parents.last() == parent);
        assert(resolved_parents(commit.parents.drop_last(), before) =~= Seq::<Seq<u8>>::empty());
        assert(resolved_parents(commit.parents, before) =~= seq![at]);
        assert(local_parents(commit.parents, before, at) == seq![at]);
        assert(all_resolved_uprooted(commit.parents, before) == ledger[anchor].uprooted) by {
            assert(commit.parents[0] == parent);
        }
        let plan = replay_plan(commit, before, at, filters);
        assert(plan == plan_at(walk, created, ledger, tip, filters, i));
        assert(plan.parents == seq![at]);
        assert(!plan.repoint_branch);
        // the commit itself is new to the ledger
        assert(!before.dom().contains(commit.id)) by {
            if before.dom().contains(commit.id) {
                let j = choose|j: int| 0 <= j < i && (#[trigger] walk[j]).id == commit.id;
                assert(walk[j].id != walk[i].id);
            }
        }
        let (after, at2) = replayed(walk.take(k), created.take(k), ledger, tip, filters);
        assert(after == before.insert(
            commit.id,
            SyncedView { commit: created[i], uprooted: plan.uprooted },
        ));
        assert(at2 == created[i]);
        assert forall|id: Seq<u8>|
            after.dom().contains(id) <==> ledger.dom().contains(id) || exists|j: int|
                0 <= j < k && (#[trigger] walk[j]).id == id by {
            if after.dom().contains(id) && !ledger.dom().contains(id) {
                if id == commit.id {
                    assert(walk[i].id == id);
                } else {
                    let j = choose|j: int| 0 <= j < i && (#[trigger] walk[j]).id == id;
                    assert(0 <= j < k && walk[j].id == id);
                }
            }
            if exists|j: int| 0 <= j < k && (#[trigger] walk[j]).id == id {
                let j = choose|j: int| 0 <= j < k && (#[trigger] walk[j]).id == id;
                if j < i {
                    assert(before.dom().contains(id));
                }
            }
        }
        assert forall|j: int| 0 <= j < k implies after[(#[trigger] walk[j]).id] == (SyncedView {
            commit: created[j],
            uprooted: ledger[anchor].uprooted,
        }) by {
            if j < i {
                assert(walk[j].id != walk[i].id);
            }
        }
    } else {
        assert(walk.take(0) =~= Seq::<CommitView>::empty());
    }
}

/// A run over a line of commits on top of the anchor, whose counterpart is
/// the tip of the branch: every commit is replayed on the branch, onto the
/// commit created just before it, with the tag of its own remote commit,
/// and it is recorded as the counterpart of that commit. The branch ends on
/// the last commit created, as many commits further as there were commits
/// to replay.
pub proof fn lemma_linear_run(
    walk: Seq<CommitView>,
    created: Seq<Seq<u8>>,
    ledger: Ledger,
    tip: Seq<u8>,
    filters: Filters,
    anchor: Seq<u8>,
)
    requires
        walk.len() == created.len(),
        linear_on(walk, anchor),
        ledger.dom().contains(anchor),
        ledger[anchor].commit == tip,
        forall|i: int| 0 <= i < walk.len() ==> !ledger.dom().contains((#[trigger] walk[i]).id),
    ensures
        replayed(walk, created, ledger, tip, filters).1 == tip_before(
            created,
            tip,
            walk.len() as int,
        ),
        forall|i: int|
            0 <= i < walk.len() ==> {
                let plan = #[trigger] plan_at(walk, created, ledger, tip, filters, i);
                &&& plan.parents == seq![tip_before(created, tip, i)]
                &&& plan.checkout is Branch
                &&& plan.tag == tag_text(walk[i].id, plan.uprooted)
                &&& plan.uprooted == ledger[anchor].uprooted
            },
        forall|i: int|
            0 <= i < walk.len() ==> {
                let after = replayed(walk, created, ledger, tip, filters).0;
                after.dom().contains((#[trigger] walk[i]).id) && after[walk[i].id].commit
                    == created[i]
            },
{
    let n = walk.len() as int;
    lemma_linear_prefix(walk, created, ledger, tip, filters, anchor, n);
    assert(walk.take(n) =~= walk);
    assert(created.take(n) =~= created);
    let after = replayed(walk, created, ledger, tip, filters).0;
    assert forall|i: int| 0 <= i < walk.len() implies after.dom().contains(
        (#[trigger] walk[i]).id,
    ) && after[walk[i].id].commit == created[i] by {
        assert(0 <= i < n && walk[i].id == walk[i].id);
    }
}

/// A second run replays nothing: once every commit that was pending has a
/// local counterpart, no commit of the walk is pending.
pub proof fn lemma_second_run_is_idle(walk: Seq<Seq<u8>>, before: Ledger, after: Ledger)
    requires
        forall|id: Seq<u8>| before.dom().contains(id) ==> after.dom().contains(id),
        forall|i: int|
            0 <= i < pending(walk, before).len() ==> after.dom().contains(
                #[trigger] pending(walk, before)[i],
            ),
    ensures
        pending(walk, after).len() == 0,
{
    lemma_nothing_pending(walk, after);
    assert forall|i: int| 0 <= i < walk.len() implies after.dom().contains(#[trigger] walk[i]) by {
        lemma_pending_members(walk, before, walk[i]);
        if !before.dom().contains(walk[i]) {
            assert(walk.contains(walk[i]));
            let at = choose|j: int|
                0 <= j < pending(walk, before).len() && pending(walk, before)[j] == walk[i];
            assert(after.dom().contains(pending(walk, before)[at]));
        }
    }
}

} // verus!
