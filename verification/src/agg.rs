//! Derived views over the task forest: the effective status of a task,
//! aggregated recursively from its subtask subtree, and subtask-completion
//! progress.
//!
//! The recursion follows raw subtask ids through the full task list; an id
//! that resolves to no task is silently skipped. The specification bounds
//! the recursion with explicit fuel, one level per stored task plus one:
//! in a forest (no task is its own direct or indirect subtask) a recursion
//! chain never revisits a task, so this fuel is never exhausted and the
//! bounded recursion agrees with the unbounded one.

use vstd::prelude::*;
use crate::task::{Task, TaskStatus, TaskView};

verus! {

/// The views of a list of tasks, in order.
pub open spec fn task_views(s: Seq<Task>) -> Seq<TaskView> {
    s.map_values(|t: Task| t@)
}

/// The first task with the given id, if any — the resolution rule for raw
/// subtask ids.
pub open spec fn find_task(all: Seq<TaskView>, id: u32) -> Option<TaskView>
    decreases all.len(),
{
    if all.len() == 0 {
        None
    } else if all[0].id == id {
        Some(all[0])
    } else {
        find_task(all.drop_first(), id)
    }
}

/// Every status in the list is the given one.
pub open spec fn all_have(ss: Seq<TaskStatus>, st: TaskStatus) -> bool {
    forall|i: int| 0 <= i < ss.len() ==> ss[i] == st
}

/// Some status in the list is the given one.
pub open spec fn any_has(ss: Seq<TaskStatus>, st: TaskStatus) -> bool {
    exists|i: int| 0 <= i < ss.len() && ss[i] == st
}

/// The aggregation rule: how a task's stored status and the effective
/// statuses of its resolved subtasks combine, first match wins.
/// Cancellation and blockage outrank partial progress, and partial progress
/// outranks the default "not started" reading; an empty list (every subtask
/// id dangled) falls back to the stored status.
pub open spec fn combine_statuses(stored: TaskStatus, children: Seq<TaskStatus>) -> TaskStatus {
    if children.len() == 0 {
        stored
    } else if all_have(children, TaskStatus::Done) {
        TaskStatus::Done
    } else if any_has(children, TaskStatus::Cancelled) {
        TaskStatus::Blocked
    } else if any_has(children, TaskStatus::Blocked) {
        TaskStatus::Blocked
    } else if any_has(children, TaskStatus::InProgress) {
        TaskStatus::InProgress
    } else if all_have(children, TaskStatus::Deferred) {
        TaskStatus::Deferred
    } else {
        TaskStatus::Pending
    }
}

/// The effective status of a task, with the recursion depth bounded by
/// `fuel`. A task without subtasks has its stored status; otherwise the
/// effective statuses of its resolved subtasks are combined.
pub open spec fn effective_status_fueled(t: TaskView, all: Seq<TaskView>, fuel: nat) -> TaskStatus
    decreases fuel, 0int,
{
    if t.subtasks.len() == 0 || fuel == 0 {
        t.status
    } else {
        combine_statuses(t.status, child_statuses(t.subtasks, all, (fuel - 1) as nat))
    }
}

/// The effective statuses of the subtask ids that resolve, in subtask
/// order; dangling ids contribute nothing.
pub open spec fn child_statuses(subs: Seq<u32>, all: Seq<TaskView>, fuel: nat) -> Seq<TaskStatus>
    decreases fuel, 1int + subs.len(),
{
    if subs.len() == 0 {
        Seq::empty()
    } else {
        let rest = child_statuses(subs.drop_first(), all, fuel);
        match find_task(all, subs[0]) {
            Some(c) => seq![effective_status_fueled(c, all, fuel)] + rest,
            None => rest,
        }
    }
}

/// The effective status of a task over a task list: the fueled recursion
/// with enough fuel for any forest over that list.
pub open spec fn effective_status_of(t: TaskView, all: Seq<TaskView>) -> TaskStatus {
    effective_status_fueled(t, all, all.len() + 1)
}

/// The status list a task's aggregation combines: the effective statuses of
/// its resolved subtasks, as they enter `effective_status_of`.
pub open spec fn child_statuses_of(t: TaskView, all: Seq<TaskView>) -> Seq<TaskStatus> {
    child_statuses(t.subtasks, all, all.len())
}

/// How many subtask ids resolve to a task whose effective status is `Done`.
/// A dangling id never counts; a duplicated id counts each time.
pub open spec fn done_count(subs: Seq<u32>, all: Seq<TaskView>) -> nat
    decreases subs.len(),
{
    if subs.len() == 0 {
        0
    } else {
        let rest = done_count(subs.drop_first(), all);
        match find_task(all, subs[0]) {
            Some(c) => if effective_status_of(c, all) == TaskStatus::Done {
                rest + 1
            } else {
                rest
            },
            None => rest,
        }
    }
}

/// A ranking that witnesses that the subtask graph over the task list is a
/// forest: every task in the list has a rank below the list's length, and
/// every resolved subtask ranks strictly below its parent. Any subtask
/// graph free of cycles admits one (rank each task by the height of its
/// subtask subtree); none exists when some task is its own direct or
/// indirect subtask.
pub open spec fn forest_ranked(all: Seq<TaskView>, rank: Map<u32, nat>) -> bool {
    &&& forall|i: int| 0 <= i < all.len()
        ==> rank.contains_key(#[trigger] all[i].id) && rank[all[i].id] < all.len()
    &&& forall|i: int, k: int|
        0 <= i < all.len() && 0 <= k < all[i].subtasks.len()
            ==> (match find_task(all, #[trigger] all[i].subtasks[k]) {
                Some(c) => rank[c.id] < rank[all[i].id],
                None => true,
            })
}

/// What `find_task` returns is an element of the list, carrying the id it
/// was asked for.
pub(crate) proof fn lemma_find_task_member(all: Seq<TaskView>, id: u32)
    requires
        find_task(all, id) is Some,
    ensures
        (find_task(all, id)->Some_0).id == id,
        exists|i: int| 0 <= i < all.len() && all[i] == find_task(all, id)->Some_0,
    decreases all.len(),
{
    if all.len() > 0 {
        if all[0].id == id {
            assert(all[0] == find_task(all, id)->Some_0);
        } else {
            lemma_find_task_member(all.drop_first(), id);
            let i = choose|i: int|
                0 <= i < all.drop_first().len()
                    && all.drop_first()[i] == find_task(all.drop_first(), id)->Some_0;
            assert(all[i + 1] == find_task(all, id)->Some_0);
        }
    }
}

/// With a forest ranking, the fueled recursion is stable once the fuel
/// exceeds a task's rank: any two such fuels agree.
pub(crate) proof fn lemma_effective_status_stable(
    all: Seq<TaskView>,
    rank: Map<u32, nat>,
    i: int,
    f1: nat,
    f2: nat,
)
    requires
        forest_ranked(all, rank),
        0 <= i < all.len(),
        f1 > rank[all[i].id],
        f2 > rank[all[i].id],
    ensures
        effective_status_fueled(all[i], all, f1) == effective_status_fueled(all[i], all, f2),
    decreases rank[all[i].id], 1int, 0int,
{
    let t = all[i];
    if t.subtasks.len() > 0 {
        assert forall|k: int| 0 <= k < t.subtasks.len()
            implies (match find_task(all, #[trigger] t.subtasks[k]) {
                Some(c) => rank.contains_key(c.id) && rank[c.id] < rank[t.id],
                None => true,
            }) by {
            if find_task(all, t.subtasks[k]) is Some {
                lemma_find_task_member(all, t.subtasks[k]);
                let j = choose|j: int|
                    0 <= j < all.len() && all[j] == find_task(all, t.subtasks[k])->Some_0;
                assert(rank.contains_key(all[j].id));
            }
        }
        lemma_child_statuses_stable(t.subtasks, all, rank, rank[t.id], (f1 - 1) as nat,
            (f2 - 1) as nat);
    }
}

/// The child-status list is likewise fuel-stable, once the fuel reaches a
/// bound strictly above every resolved child's rank.
pub(crate) proof fn lemma_child_statuses_stable(
    subs: Seq<u32>,
    all: Seq<TaskView>,
    rank: Map<u32, nat>,
    bound: nat,
    f1: nat,
    f2: nat,
)
    requires
        forest_ranked(all, rank),
        f1 >= bound,
        f2 >= bound,
        forall|k: int| 0 <= k < subs.len()
            ==> (match find_task(all, #[trigger] subs[k]) {
                Some(c) => rank.contains_key(c.id) && rank[c.id] < bound,
                None => true,
            }),
    ensures
        child_statuses(subs, all, f1) == child_statuses(subs, all, f2),
    decreases bound, 0int, subs.len() + 1,
{
    if subs.len() > 0 {
        assert forall|k: int| 0 <= k < subs.drop_first().len()
            implies (match find_task(all, #[trigger] subs.drop_first()[k]) {
                Some(c) => rank.contains_key(c.id) && rank[c.id] < bound,
                None => true,
            }) by {
            assert(subs.drop_first()[k] == subs[k + 1]);
        }
        lemma_child_statuses_stable(subs.drop_first(), all, rank, bound, f1, f2);
        if find_task(all, subs[0]) is Some {
            let c = find_task(all, subs[0])->Some_0;
            lemma_find_task_member(all, subs[0]);
            let j = choose|j: int| 0 <= j < all.len() && all[j] == c;
            assert(rank[c.id] < bound);
            lemma_effective_status_stable(all, rank, j, f1, f2);
        }
    }
}

/// When every resolved subtask's fueled status is the given one, every
/// entry of the child-status list is that status.
pub(crate) proof fn lemma_child_statuses_all(
    subs: Seq<u32>,
    all: Seq<TaskView>,
    fuel: nat,
    st: TaskStatus,
)
    requires
        forall|k: int| 0 <= k < subs.len()
            ==> (match find_task(all, #[trigger] subs[k]) {
                Some(c) => effective_status_fueled(c, all, fuel) == st,
                None => true,
            }),
    ensures
        all_have(child_statuses(subs, all, fuel), st),
    decreases subs.len(),
{
    if subs.len() > 0 {
        assert forall|k: int| 0 <= k < subs.drop_first().len()
            implies (match find_task(all, #[trigger] subs.drop_first()[k]) {
                Some(c) => effective_status_fueled(c, all, fuel) == st,
                None => true,
            }) by {
            assert(subs.drop_first()[k] == subs[k + 1]);
        }
        lemma_child_statuses_all(subs.drop_first(), all, fuel, st);
    }
}

/// When every resolved subtask's fueled status is one of two given ones,
/// so is every entry of the child-status list.
pub(crate) proof fn lemma_child_statuses_within(
    subs: Seq<u32>,
    all: Seq<TaskView>,
    fuel: nat,
    st1: TaskStatus,
    st2: TaskStatus,
)
    requires
        forall|k: int| 0 <= k < subs.len()
            ==> (match find_task(all, #[trigger] subs[k]) {
                Some(c) => effective_status_fueled(c, all, fuel) == st1
                    || effective_status_fueled(c, all, fuel) == st2,
                None => true,
            }),
    ensures
        forall|m: int| 0 <= m < child_statuses(subs, all, fuel).len()
            ==> child_statuses(subs, all, fuel)[m] == st1
                || child_statuses(subs, all, fuel)[m] == st2,
    decreases subs.len(),
{
    if subs.len() > 0 {
        assert forall|k: int| 0 <= k < subs.drop_first().len()
            implies (match find_task(all, #[trigger] subs.drop_first()[k]) {
                Some(c) => effective_status_fueled(c, all, fuel) == st1
                    || effective_status_fueled(c, all, fuel) == st2,
                None => true,
            }) by {
            assert(subs.drop_first()[k] == subs[k + 1]);
        }
        lemma_child_statuses_within(subs.drop_first(), all, fuel, st1, st2);
    }
}

/// A resolved subtask contributes its fueled status as an entry of the
/// child-status list.
pub(crate) proof fn lemma_child_statuses_has(
    subs: Seq<u32>,
    all: Seq<TaskView>,
    fuel: nat,
    k: int,
)
    requires
        0 <= k < subs.len(),
        find_task(all, subs[k]) is Some,
    ensures
        child_statuses(subs, all, fuel).len() > 0,
        any_has(
            child_statuses(subs, all, fuel),
            effective_status_fueled(find_task(all, subs[k])->Some_0, all, fuel),
        ),
    decreases subs.len(),
{
    let cs = child_statuses(subs, all, fuel);
    let st = effective_status_fueled(find_task(all, subs[k])->Some_0, all, fuel);
    if k == 0 {
        assert(cs[0] == st);
    } else {
        assert(subs.drop_first()[k - 1] == subs[k]);
        lemma_child_statuses_has(subs.drop_first(), all, fuel, k - 1);
        let rest = child_statuses(subs.drop_first(), all, fuel);
        let m = choose|m: int| 0 <= m < rest.len() && rest[m] == st;
        match find_task(all, subs[0]) {
            Some(_) => {
                assert(cs[m + 1] == rest[m]);
            },
            None => {
                assert(cs[m] == rest[m]);
            },
        }
    }
}

/// Resolution by a scan from the front agrees with `find_task`.
pub(crate) proof fn lemma_find_task_at(all: Seq<TaskView>, id: u32, i: int)
    requires
        0 <= i < all.len(),
        all[i].id == id,
        forall|k: int| 0 <= k < i ==> all[k].id != id,
    ensures
        find_task(all, id) == Some(all[i]),
    decreases i,
{
    if i > 0 {
        lemma_find_task_at(all.drop_first(), id, i - 1);
    }
}

/// A scan that finds no match agrees with `find_task`.
pub(crate) proof fn lemma_find_task_none(all: Seq<TaskView>, id: u32)
    requires
        forall|k: int| 0 <= k < all.len() ==> all[k].id != id,
    ensures
        find_task(all, id) is None,
    decreases all.len(),
{
    if all.len() > 0 {
        lemma_find_task_none(all.drop_first(), id);
    }
}

/// Extending the subtask list by one id appends that id's contribution:
/// the effective status of the task it resolves to, or nothing if it
/// dangles.
pub(crate) proof fn lemma_child_statuses_push(
    subs: Seq<u32>,
    x: u32,
    all: Seq<TaskView>,
    fuel: nat,
)
    ensures
        child_statuses(subs.push(x), all, fuel) == child_statuses(subs, all, fuel)
            + (match find_task(all, x) {
                Some(c) => seq![effective_status_fueled(c, all, fuel)],
                None => Seq::<TaskStatus>::empty(),
            }),
    decreases subs.len(),
{
    let tail = (match find_task(all, x) {
        Some(c) => seq![effective_status_fueled(c, all, fuel)],
        None => Seq::<TaskStatus>::empty(),
    });
    let sp = subs.push(x);
    if subs.len() == 0 {
        assert(sp.len() == 1);
        assert(sp[0] == x);
        assert(sp.drop_first() =~= Seq::<u32>::empty());
        assert(sp.drop_first() == Seq::<u32>::empty());
        assert(child_statuses(sp.drop_first(), all, fuel) == Seq::<TaskStatus>::empty());
        assert(child_statuses(subs, all, fuel) == Seq::<TaskStatus>::empty());
        assert(child_statuses(sp, all, fuel) =~= child_statuses(subs, all, fuel) + tail);
    } else {
        lemma_child_statuses_push(subs.drop_first(), x, all, fuel);
        assert(sp.drop_first() =~= subs.drop_first().push(x));
        assert(sp.drop_first() == subs.drop_first().push(x));
        assert(sp[0] == subs[0]);
        assert(sp.len() == subs.len() + 1);
        let rest_old = child_statuses(subs.drop_first(), all, fuel);
        assert(child_statuses(sp.drop_first(), all, fuel) == rest_old + tail);
        match find_task(all, subs[0]) {
            Some(c) => {
                let e = seq![effective_status_fueled(c, all, fuel)];
                assert(child_statuses(sp, all, fuel) == e + (rest_old + tail));
                assert(child_statuses(subs, all, fuel) == e + rest_old);
                assert(e + (rest_old + tail) =~= (e + rest_old) + tail);
            },
            None => {
                assert(child_statuses(sp, all, fuel) == rest_old + tail);
                assert(child_statuses(subs, all, fuel) == rest_old);
            },
        }
        assert(child_statuses(sp, all, fuel) =~= child_statuses(subs, all, fuel) + tail);
    }
}

/// The same, for the done-subtask count.
pub(crate) proof fn lemma_done_count_push(subs: Seq<u32>, x: u32, all: Seq<TaskView>)
    ensures
        done_count(subs.push(x), all) == done_count(subs, all)
            + (match find_task(all, x) {
                Some(c) => if effective_status_of(c, all) == TaskStatus::Done {
                    1nat
                } else {
                    0nat
                },
                None => 0nat,
            }),
    decreases subs.len(),
{
    let sp = subs.push(x);
    if subs.len() == 0 {
        assert(sp.len() == 1);
        assert(sp[0] == x);
        assert(sp.drop_first() =~= Seq::<u32>::empty());
        assert(sp.drop_first() == Seq::<u32>::empty());
        assert(done_count(sp.drop_first(), all) == 0);
        assert(done_count(subs, all) == 0);
    } else {
        lemma_done_count_push(subs.drop_first(), x, all);
        assert(sp.drop_first() =~= subs.drop_first().push(x));
        assert(sp.drop_first() == subs.drop_first().push(x));
        assert(sp[0] == subs[0]);
        assert(sp.len() == subs.len() + 1);
    }
}

/// The done-subtask count never exceeds the number of subtask ids.
pub(crate) proof fn lemma_done_count_le(subs: Seq<u32>, all: Seq<TaskView>)
    ensures
        done_count(subs, all) <= subs.len(),
    decreases subs.len(),
{
    if subs.len() > 0 {
        lemma_done_count_le(subs.drop_first(), all);
    }
}

/// The first index holding the given id, scanning the task list from the
/// front; the id is dangling when there is none.
fn find_task_index(all: &Vec<Task>, id: u32) -> (r: Option<usize>)
    ensures
        match r {
            Some(i) => i < all@.len() && all@[i as int].id == id
                && find_task(task_views(all@), id) == Some(all@[i as int]@),
            None => find_task(task_views(all@), id) is None,
        },
{
    let mut i: usize = 0;
    while i < all.len()
        invariant
            i <= all@.len(),
            forall|k: int| 0 <= k < i ==> all@[k].id != id,
        decreases all@.len() - i,
    {
        if all[i].id == id {
            proof {
                lemma_find_task_at(task_views(all@), id, i as int);
            }
            return Some(i);
        }
        i += 1;
    }
    proof {
        lemma_find_task_none(task_views(all@), id);
    }
    None
}

/// Every status in the list equals `st`.
fn statuses_all_have(ss: &Vec<TaskStatus>, st: TaskStatus) -> (b: bool)
    ensures
        b == all_have(ss@, st),
{
    let mut i: usize = 0;
    while i < ss.len()
        invariant
            i <= ss@.len(),
            forall|k: int| 0 <= k < i ==> ss@[k] == st,
        decreases ss@.len() - i,
    {
        if ss[i] != st {
            assert(!all_have(ss@, st)) by {
                assert(ss@[i as int] != st);
            }
            return false;
        }
        i += 1;
    }
    true
}

/// Some status in the list equals `st`.
fn statuses_any_has(ss: &Vec<TaskStatus>, st: TaskStatus) -> (b: bool)
    ensures
        b == any_has(ss@, st),
{
    let mut i: usize = 0;
    while i < ss.len()
        invariant
            i <= ss@.len(),
            forall|k: int| 0 <= k < i ==> ss@[k] != st,
        decreases ss@.len() - i,
    {
        if ss[i] == st {
            assert(any_has(ss@, st)) by {
                assert(ss@[i as int] == st);
            }
            return true;
        }
        i += 1;
    }
    false
}

fn effective_status_fueled_exec(t: &Task, all: &Vec<Task>, fuel: usize) -> (r: TaskStatus)
    ensures
        r == effective_status_fueled(t@, task_views(all@), fuel as nat),
    decreases fuel,
{
    if t.subtasks.len() == 0 || fuel == 0 {
        return t.status;
    }
    let ghost views = task_views(all@);
    let ghost subfuel = (fuel - 1) as nat;
    let mut statuses: Vec<TaskStatus> = Vec::new();
    let mut i: usize = 0;
    while i < t.subtasks.len()
        invariant
            i <= t.subtasks@.len(),
            fuel >= 1,
            views == task_views(all@),
            subfuel == (fuel - 1) as nat,
            statuses@ == child_statuses(t.subtasks@.take(i as int), views, subfuel),
        decreases t.subtasks@.len() - i,
    {
        let id = t.subtasks[i];
        match find_task_index(all, id) {
            Some(j) => {
                let st = effective_status_fueled_exec(&all[j], all, fuel - 1);
                statuses.push(st);
                proof {
                    assert(views[j as int] == all@[j as int]@);
                }
            },
            None => {},
        }
        proof {
            assert(t.subtasks@.take(i + 1)
                =~= t.subtasks@.take(i as int).push(t.subtasks@[i as int]));
            lemma_child_statuses_push(t.subtasks@.take(i as int), t.subtasks@[i as int],
                views, subfuel);
        }
        i += 1;
    }
    proof {
        assert(t.subtasks@.take(t.subtasks@.len() as int) =~= t.subtasks@);
    }
    if statuses.len() == 0 {
        return t.status;
    }
    if statuses_all_have(&statuses, TaskStatus::Done) {
        return TaskStatus::Done;
    }
    if statuses_any_has(&statuses, TaskStatus::Cancelled) {
        return TaskStatus::Blocked;
    }
    if statuses_any_has(&statuses, TaskStatus::Blocked) {
        return TaskStatus::Blocked;
    }
    if statuses_any_has(&statuses, TaskStatus::InProgress) {
        return TaskStatus::InProgress;
    }
    if statuses_all_have(&statuses, TaskStatus::Deferred) {
        return TaskStatus::Deferred;
    }
    TaskStatus::Pending
}

impl Task {
    /// The effective status of one task against the full task list: a task
    /// without subtasks reports its stored status; one with subtasks reports
    /// the combination of its resolved subtasks' effective statuses, dangling
    /// ids silently skipped, falling back to the stored status when every id
    /// dangles. Recomputed from the full list on every call, never cached.
    pub fn compute_effective_status(&self, all_tasks: &Vec<Task>) -> (r: TaskStatus)
        requires
            all_tasks@.len() < usize::MAX,
        ensures
            r == effective_status_of(self@, task_views(all_tasks@)),
    {
        effective_status_fueled_exec(self, all_tasks, all_tasks.len() + 1)
    }

    /// Subtask progress as `(completed, total)`: `total` is the literal
    /// length of the subtask list, dangling ids included; `completed` counts
    /// the subtask ids that resolve to a task whose effective status is
    /// `Done`, and never exceeds `total`.
    pub fn subtask_progress(&self, all_tasks: &Vec<Task>) -> (r: (usize, usize))
        requires
            all_tasks@.len() < usize::MAX,
        ensures
            r.1 == self@.subtasks.len(),
            r.0 == done_count(self@.subtasks, task_views(all_tasks@)),
            r.0 <= r.1,
    {
        let ghost views = task_views(all_tasks@);
        let total = self.subtasks.len();
        let mut completed: usize = 0;
        let mut i: usize = 0;
        while i < self.subtasks.len()
            invariant
                i <= self.subtasks@.len(),
                all_tasks@.len() < usize::MAX,
                views == task_views(all_tasks@),
                completed == done_count(self.subtasks@.take(i as int), views),
                completed <= i,
            decreases self.subtasks@.len() - i,
        {
            let id = self.subtasks[i];
            match find_task_index(all_tasks, id) {
                Some(j) => {
                    let st = effective_status_fueled_exec(
                        &all_tasks[j],
                        all_tasks,
                        all_tasks.len() + 1,
                    );
                    if st == TaskStatus::Done {
                        completed = completed + 1;
                    }
                    proof {
                        assert(views[j as int] == all_tasks@[j as int]@);
                    }
                },
                None => {},
            }
            proof {
                assert(self.subtasks@.take(i + 1)
                    =~= self.subtasks@.take(i as int).push(self.subtasks@[i as int]));
                lemma_done_count_push(self.subtasks@.take(i as int),
                    self.subtasks@[i as int], views);
            }
            i += 1;
        }
        proof {
            assert(self.subtasks@.take(self.subtasks@.len() as int) =~= self.subtasks@);
            lemma_done_count_le(self.subtasks@, views);
        }
        (completed, total)
    }
}

} // verus!
