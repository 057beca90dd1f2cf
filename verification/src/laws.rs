//! The laws of the task graph, stated and proved once over the models.
//!
//! Each lemma speaks over [`TaskView`]s and the aggregation specification;
//! the executable functions' own contracts connect them to running code.
//! The aggregation laws take a [`forest_ranked`] witness: they hold of any
//! task list whose subtask graph is a forest, which is every list the store
//! operations can grow, and the witness excludes only degenerate lists in
//! which a task is its own direct or indirect subtask.

use vstd::prelude::*;
use crate::agg::{
    all_have, any_has, child_statuses, child_statuses_of, combine_statuses, effective_status_of,
    find_task, forest_ranked, lemma_child_statuses_all, lemma_child_statuses_has,
    lemma_child_statuses_push, lemma_child_statuses_within, lemma_effective_status_stable,
    lemma_find_task_member,
};
use crate::task::{TaskStatus, TaskView};

verus! {

/// A task without subtasks reports exactly its stored status as its
/// effective status.
pub proof fn lemma_leaf_effective_status(t: TaskView, all: Seq<TaskView>)
    requires
        t.subtasks.len() == 0,
    ensures
        effective_status_of(t, all) == t.status,
{
}

/// Bridges one resolved subtask id from the external effective status to
/// the fueled status the parent's aggregation combines.
proof fn lemma_child_bridge(all: Seq<TaskView>, rank: Map<u32, nat>, id: u32)
    requires
        forest_ranked(all, rank),
        find_task(all, id) is Some,
    ensures
        crate::agg::effective_status_fueled(find_task(all, id)->Some_0, all, all.len())
            == effective_status_of(find_task(all, id)->Some_0, all),
{
    let c = find_task(all, id)->Some_0;
    lemma_find_task_member(all, id);
    let j = choose|j: int| 0 <= j < all.len() && all[j] == c;
    lemma_effective_status_stable(all, rank, j, all.len(), all.len() + 1);
}

/// A task every one of whose subtasks' effective statuses is `Done` — with
/// at least one subtask id resolving — has effective status `Done`,
/// whatever its own stored status.
pub proof fn lemma_all_children_done(t: TaskView, all: Seq<TaskView>, rank: Map<u32, nat>)
    requires
        forest_ranked(all, rank),
        t.subtasks.len() > 0,
        exists|k: int| 0 <= k < t.subtasks.len()
            && find_task(all, #[trigger] t.subtasks[k]) is Some,
        forall|k: int| 0 <= k < t.subtasks.len()
            ==> (match find_task(all, #[trigger] t.subtasks[k]) {
                Some(c) => effective_status_of(c, all) == TaskStatus::Done,
                None => true,
            }),
    ensures
        effective_status_of(t, all) == TaskStatus::Done,
{
    let ln = all.len();
    assert forall|k: int| 0 <= k < t.subtasks.len()
        implies (match find_task(all, #[trigger] t.subtasks[k]) {
            Some(c) => crate::agg::effective_status_fueled(c, all, ln) == TaskStatus::Done,
            None => true,
        }) by {
        if find_task(all, t.subtasks[k]) is Some {
            lemma_child_bridge(all, rank, t.subtasks[k]);
        }
    }
    lemma_child_statuses_all(t.subtasks, all, ln, TaskStatus::Done);
    let k0 = choose|k: int|
        0 <= k < t.subtasks.len() && find_task(all, #[trigger] t.subtasks[k]) is Some;
    lemma_child_statuses_has(t.subtasks, all, ln, k0);
    let cs = child_statuses_of(t, all);
    assert(cs.len() > 0);
    assert(effective_status_of(t, all) == combine_statuses(t.status, cs));
}

/// Cancellation outranks progress: a task one of whose subtasks resolves
/// with effective status `Cancelled` has effective status `Blocked`, never
/// `InProgress`, whatever the other subtasks are doing.
pub proof fn lemma_cancelled_child_blocks(
    t: TaskView,
    all: Seq<TaskView>,
    rank: Map<u32, nat>,
    k: int,
)
    requires
        forest_ranked(all, rank),
        0 <= k < t.subtasks.len(),
        (match find_task(all, t.subtasks[k]) {
            Some(c) => effective_status_of(c, all) == TaskStatus::Cancelled,
            None => false,
        }),
    ensures
        effective_status_of(t, all) == TaskStatus::Blocked,
{
    let ln = all.len();
    lemma_child_bridge(all, rank, t.subtasks[k]);
    lemma_child_statuses_has(t.subtasks, all, ln, k);
    let cs = child_statuses_of(t, all);
    assert(any_has(cs, TaskStatus::Cancelled));
    let m = choose|m: int| 0 <= m < cs.len() && cs[m] == TaskStatus::Cancelled;
    assert(!all_have(cs, TaskStatus::Done)) by {
        assert(cs[m] != TaskStatus::Done);
    }
    assert(effective_status_of(t, all) == combine_statuses(t.status, cs));
}

/// A task all of whose subtasks' effective statuses are `Deferred` — with
/// at least one subtask id resolving — has effective status `Deferred`.
pub proof fn lemma_all_children_deferred(t: TaskView, all: Seq<TaskView>, rank: Map<u32, nat>)
    requires
        forest_ranked(all, rank),
        t.subtasks.len() > 0,
        exists|k: int| 0 <= k < t.subtasks.len()
            && find_task(all, #[trigger] t.subtasks[k]) is Some,
        forall|k: int| 0 <= k < t.subtasks.len()
            ==> (match find_task(all, #[trigger] t.subtasks[k]) {
                Some(c) => effective_status_of(c, all) == TaskStatus::Deferred,
                None => true,
            }),
    ensures
        effective_status_of(t, all) == TaskStatus::Deferred,
{
    let ln = all.len();
    assert forall|k: int| 0 <= k < t.subtasks.len()
        implies (match find_task(all, #[trigger] t.subtasks[k]) {
            Some(c) => crate::agg::effective_status_fueled(c, all, ln) == TaskStatus::Deferred,
            None => true,
        }) by {
        if find_task(all, t.subtasks[k]) is Some {
            lemma_child_bridge(all, rank, t.subtasks[k]);
        }
    }
    lemma_child_statuses_all(t.subtasks, all, ln, TaskStatus::Deferred);
    let k0 = choose|k: int|
        0 <= k < t.subtasks.len() && find_task(all, #[trigger] t.subtasks[k]) is Some;
    lemma_child_statuses_has(t.subtasks, all, ln, k0);
    let cs = child_statuses_of(t, all);
    assert(cs.len() > 0);
    assert(cs[0] == TaskStatus::Deferred);
    assert(!all_have(cs, TaskStatus::Done)) by {
        assert(cs[0] != TaskStatus::Done);
    }
    if any_has(cs, TaskStatus::Cancelled) {
        let m = choose|m: int| 0 <= m < cs.len() && cs[m] == TaskStatus::Cancelled;
        assert(cs[m] == TaskStatus::Deferred);
    }
    if any_has(cs, TaskStatus::Blocked) {
        let m = choose|m: int| 0 <= m < cs.len() && cs[m] == TaskStatus::Blocked;
        assert(cs[m] == TaskStatus::Deferred);
    }
    if any_has(cs, TaskStatus::InProgress) {
        let m = choose|m: int| 0 <= m < cs.len() && cs[m] == TaskStatus::InProgress;
        assert(cs[m] == TaskStatus::Deferred);
    }
    assert(effective_status_of(t, all) == combine_statuses(t.status, cs));
}

/// One `Pending` sibling breaks deferral: when every resolved subtask's
/// effective status is `Deferred` or `Pending` and at least one is
/// `Pending`, the parent's effective status is `Pending`.
pub proof fn lemma_pending_breaks_deferral(
    t: TaskView,
    all: Seq<TaskView>,
    rank: Map<u32, nat>,
    k: int,
)
    requires
        forest_ranked(all, rank),
        forall|i: int| 0 <= i < t.subtasks.len()
            ==> (match find_task(all, #[trigger] t.subtasks[i]) {
                Some(c) => effective_status_of(c, all) == TaskStatus::Deferred
                    || effective_status_of(c, all) == TaskStatus::Pending,
                None => true,
            }),
        0 <= k < t.subtasks.len(),
        (match find_task(all, t.subtasks[k]) {
            Some(c) => effective_status_of(c, all) == TaskStatus::Pending,
            None => false,
        }),
    ensures
        effective_status_of(t, all) == TaskStatus::Pending,
{
    let ln = all.len();
    assert forall|i: int| 0 <= i < t.subtasks.len()
        implies (match find_task(all, #[trigger] t.subtasks[i]) {
            Some(c) => crate::agg::effective_status_fueled(c, all, ln) == TaskStatus::Deferred
                || crate::agg::effective_status_fueled(c, all, ln) == TaskStatus::Pending,
            None => true,
        }) by {
        if find_task(all, t.subtasks[i]) is Some {
            lemma_child_bridge(all, rank, t.subtasks[i]);
        }
    }
    lemma_child_statuses_within(t.subtasks, all, ln, TaskStatus::Deferred, TaskStatus::Pending);
    lemma_child_bridge(all, rank, t.subtasks[k]);
    lemma_child_statuses_has(t.subtasks, all, ln, k);
    let cs = child_statuses_of(t, all);
    assert(cs.len() > 0);
    let p = choose|m: int| 0 <= m < cs.len() && cs[m] == TaskStatus::Pending;
    assert(!all_have(cs, TaskStatus::Done)) by {
        assert(cs[p] != TaskStatus::Done);
    }
    assert(!all_have(cs, TaskStatus::Deferred)) by {
        assert(cs[p] != TaskStatus::Deferred);
    }
    if any_has(cs, TaskStatus::Cancelled) {
        let m = choose|m: int| 0 <= m < cs.len() && cs[m] == TaskStatus::Cancelled;
        assert(cs[m] == TaskStatus::Deferred || cs[m] == TaskStatus::Pending);
    }
    if any_has(cs, TaskStatus::Blocked) {
        let m = choose|m: int| 0 <= m < cs.len() && cs[m] == TaskStatus::Blocked;
        assert(cs[m] == TaskStatus::Deferred || cs[m] == TaskStatus::Pending);
    }
    if any_has(cs, TaskStatus::InProgress) {
        let m = choose|m: int| 0 <= m < cs.len() && cs[m] == TaskStatus::InProgress;
        assert(cs[m] == TaskStatus::Deferred || cs[m] == TaskStatus::Pending);
    }
    assert(effective_status_of(t, all) == combine_statuses(t.status, cs));
}

/// Round trip through the store's model: after saving a record, loading its
/// id yields exactly the saved record. Together with `save_task`'s and
/// `load_task`'s contracts this says a saved task is loaded back equal in
/// every field.
pub proof fn lemma_save_then_load(m: Map<u32, TaskView>, t: TaskView)
    ensures
        m.insert(t.id, t).contains_key(t.id),
        m.insert(t.id, t)[t.id] == t,
{
}

/// Deleting a referenced task leaves the reference dangling, and a dangling
/// subtask id contributes nothing to aggregation: when no task in the list
/// carries the id, a subtask list with that id appended aggregates exactly
/// as without it.
pub proof fn lemma_dangling_subtask_skipped(
    subs: Seq<u32>,
    x: u32,
    all: Seq<TaskView>,
    fuel: nat,
)
    requires
        find_task(all, x) is None,
    ensures
        child_statuses(subs.push(x), all, fuel) == child_statuses(subs, all, fuel),
{
    lemma_child_statuses_push(subs, x, all, fuel);
    assert(child_statuses(subs, all, fuel) + Seq::<TaskStatus>::empty()
        =~= child_statuses(subs, all, fuel));
}

} // verus!
