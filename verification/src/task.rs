//! The task entity: status, priority and complexity vocabularies, the `Task`
//! struct itself, and the mutations a command handler performs on a single
//! task.
//!
//! A task's mathematical model is [`TaskView`]: free text becomes a sequence
//! of characters, the dependency list becomes a set of identifiers (the list
//! is unordered and duplicate-free), and the subtask list stays an ordered
//! sequence, since its order is meaningful for display. Timestamps are plain
//! milliseconds since the Unix epoch; their values come from the wall clock
//! and are never constrained by a contract.

use std::collections::HashSet;
use vstd::prelude::*;

verus! {

broadcast use vstd::std_specs::hash::group_hash_axioms;

/// The stored status of a task. The status a query reports for a task with
/// subtasks is derived separately; see `compute_effective_status`.
#[derive(Clone, Copy, Debug, PartialEq, Eq, Structural)]
pub enum TaskStatus {
    Pending,
    InProgress,
    Done,
    Blocked,
    Deferred,
    Cancelled,
}

#[derive(Clone, Copy, Debug, PartialEq, Eq, Structural)]
pub enum Priority {
    High,
    Medium,
    Low,
}

#[derive(Clone, Copy, Debug, PartialEq, Eq, Structural)]
pub enum Complexity {
    Simple,
    Medium,
    Complex,
}

/// The canonical kebab-case spelling of a status.
pub open spec fn status_label(s: TaskStatus) -> Seq<char> {
    match s {
        TaskStatus::Pending => "pending"@,
        TaskStatus::InProgress => "in-progress"@,
        TaskStatus::Done => "done"@,
        TaskStatus::Blocked => "blocked"@,
        TaskStatus::Deferred => "deferred"@,
        TaskStatus::Cancelled => "cancelled"@,
    }
}

/// The canonical lowercase spelling of a priority.
pub open spec fn priority_label(p: Priority) -> Seq<char> {
    match p {
        Priority::High => "high"@,
        Priority::Medium => "medium"@,
        Priority::Low => "low"@,
    }
}

/// The canonical lowercase spelling of a complexity.
pub open spec fn complexity_label(c: Complexity) -> Seq<char> {
    match c {
        Complexity::Simple => "simple"@,
        Complexity::Medium => "medium"@,
        Complexity::Complex => "complex"@,
    }
}

impl TaskStatus {
    /// The canonical kebab-case name, as it appears on output.
    pub fn label(&self) -> (r: String)
        ensures
            r@ == status_label(*self),
    {
        match self {
            TaskStatus::Pending => "pending".to_owned(),
            TaskStatus::InProgress => "in-progress".to_owned(),
            TaskStatus::Done => "done".to_owned(),
            TaskStatus::Blocked => "blocked".to_owned(),
            TaskStatus::Deferred => "deferred".to_owned(),
            TaskStatus::Cancelled => "cancelled".to_owned(),
        }
    }
}

impl Priority {
    /// The canonical lowercase name, as it appears on output.
    pub fn label(&self) -> (r: String)
        ensures
            r@ == priority_label(*self),
    {
        match self {
            Priority::High => "high".to_owned(),
            Priority::Medium => "medium".to_owned(),
            Priority::Low => "low".to_owned(),
        }
    }
}

impl Complexity {
    /// The canonical lowercase name, as it appears on output.
    pub fn label(&self) -> (r: String)
        ensures
            r@ == complexity_label(*self),
    {
        match self {
            Complexity::Simple => "simple".to_owned(),
            Complexity::Medium => "medium".to_owned(),
            Complexity::Complex => "complex".to_owned(),
        }
    }
}

/// The set of identifiers a list of raw ids denotes.
pub open spec fn id_set(s: Seq<u32>) -> Set<u32> {
    Set::new(|x: u32| s.contains(x))
}

/// The mathematical model of a [`Task`].
pub ghost struct TaskView {
    pub id: u32,
    pub title: Seq<char>,
    pub description: Seq<char>,
    pub status: TaskStatus,
    pub priority: Priority,
    pub complexity: Option<Complexity>,
    pub dependencies: Set<u32>,
    pub subtasks: Seq<u32>,
    pub created_at: i64,
    pub updated_at: i64,
    pub completed_at: Option<i64>,
    pub tags: Seq<Seq<char>>,
}

/// One unit of work. Identifiers in `dependencies` and `subtasks` are raw
/// cross-references: they may dangle once the referenced task is deleted, and
/// every traversal tolerates that.
#[derive(Debug, Clone, PartialEq)]
pub struct Task {
    pub id: u32,
    pub title: String,
    pub description: String,
    pub status: TaskStatus,
    pub priority: Priority,
    pub complexity: Option<Complexity>,
    /// Ids of tasks that must be `Done` before this one is ready. Kept
    /// duplicate-free by `add_dependency`; modeled as a set.
    pub dependencies: Vec<u32>,
    /// Ids of child tasks, in insertion order. Duplicates are not rejected.
    pub subtasks: Vec<u32>,
    pub created_at: i64,
    pub updated_at: i64,
    /// Set when the status is set to `Done`; deliberately not cleared when
    /// the status later moves away from `Done`.
    pub completed_at: Option<i64>,
    pub tags: Vec<String>,
}

impl View for Task {
    type V = TaskView;

    open spec fn view(&self) -> TaskView {
        TaskView {
            id: self.id,
            title: self.title@,
            description: self.description@,
            status: self.status,
            priority: self.priority,
            complexity: self.complexity,
            dependencies: id_set(self.dependencies@),
            subtasks: self.subtasks@,
            created_at: self.created_at,
            updated_at: self.updated_at,
            completed_at: self.completed_at,
            tags: self.tags@.map_values(|s: String| s@),
        }
    }
}

proof fn lemma_contains_push(s: Seq<u32>, x: u32, y: u32)
    ensures
        s.push(x).contains(y) <==> (s.contains(y) || y == x),
{
    if s.push(x).contains(y) {
        let i = choose|i: int| 0 <= i < s.push(x).len() && s.push(x)[i] == y;
        if i < s.len() {
            assert(s[i] == y);
        }
    }
    if s.contains(y) {
        let i = choose|i: int| 0 <= i < s.len() && s[i] == y;
        assert(s.push(x)[i] == y);
    }
    if y == x {
        assert(s.push(x)[s.len() as int] == y);
    }
}

/// Membership in a list of ids, used to keep `dependencies` duplicate-free.
fn contains_id(v: &Vec<u32>, x: u32) -> (b: bool)
    ensures
        b == v@.contains(x),
{
    let mut i: usize = 0;
    while i < v.len()
        invariant
            i <= v@.len(),
            forall|k: int| 0 <= k < i ==> v@[k] != x,
        decreases v@.len() - i,
    {
        if v[i] == x {
            assert(v@.contains(x)) by {
                assert(v@[i as int] == x);
            }
            return true;
        }
        i += 1;
    }
    false
}

fn copy_ids(v: &Vec<u32>) -> (r: Vec<u32>)
    ensures
        r@ == v@,
{
    let mut r: Vec<u32> = Vec::new();
    let mut i: usize = 0;
    while i < v.len()
        invariant
            i <= v@.len(),
            r@ == v@.take(i as int),
        decreases v@.len() - i,
    {
        r.push(v[i]);
        proof {
            assert(v@.take(i + 1) =~= v@.take(i as int).push(v@[i as int]));
        }
        i += 1;
    }
    proof {
        assert(v@.take(v@.len() as int) =~= v@);
    }
    r
}

fn copy_strings(v: &Vec<String>) -> (r: Vec<String>)
    ensures
        r@ == v@,
{
    let mut r: Vec<String> = Vec::new();
    let mut i: usize = 0;
    while i < v.len()
        invariant
            i <= v@.len(),
            r@ == v@.take(i as int),
        decreases v@.len() - i,
    {
        r.push(v[i].clone());
        proof {
            assert(v@.take(i + 1) =~= v@.take(i as int).push(v@[i as int]));
        }
        i += 1;
    }
    proof {
        assert(v@.take(v@.len() as int) =~= v@);
    }
    r
}

impl Task {
    /// A fresh task: `Pending`, no dependencies, subtasks or tags, no
    /// complexity, created and updated at the same instant.
    pub fn new(id: u32, title: String, description: String, priority: Priority) -> (t: Task)
        ensures
            t@.id == id,
            t@.title == title@,
            t@.description == description@,
            t@.status == TaskStatus::Pending,
            t@.priority == priority,
            t@.complexity is None,
            t@.dependencies == Set::<u32>::empty(),
            t@.subtasks == Seq::<u32>::empty(),
            t@.created_at == t@.updated_at,
            t@.completed_at is None,
            t@.tags == Seq::<Seq<char>>::empty(),
    {
        let now = crate::clock::now_millis();
        let t = Task {
            id,
            title,
            description,
            status: TaskStatus::Pending,
            priority,
            complexity: None,
            dependencies: Vec::new(),
            subtasks: Vec::new(),
            created_at: now,
            updated_at: now,
            completed_at: None,
            tags: Vec::new(),
        };
        proof {
            assert(t@.dependencies =~= Set::<u32>::empty());
            assert(t@.tags =~= Seq::<Seq<char>>::empty());
        }
        t
    }

    /// A second task equal to this one in every field.
    pub fn duplicate(&self) -> (r: Task)
        ensures
            r@ == self@,
    {
        let r = Task {
            id: self.id,
            title: self.title.clone(),
            description: self.description.clone(),
            status: self.status,
            priority: self.priority,
            complexity: self.complexity,
            dependencies: copy_ids(&self.dependencies),
            subtasks: copy_ids(&self.subtasks),
            created_at: self.created_at,
            updated_at: self.updated_at,
            completed_at: self.completed_at,
            tags: copy_strings(&self.tags),
        };
        r
    }

    /// Sets the stored status and touches `updated_at`; a transition to
    /// `Done` also records `completed_at`. A transition away from `Done`
    /// deliberately leaves `completed_at` as it was.
    pub fn set_status(&mut self, status: TaskStatus)
        ensures
            (final(self)@ == TaskView {
                status: status,
                updated_at: final(self)@.updated_at,
                completed_at: final(self)@.completed_at,
                ..old(self)@
            }),
            status == TaskStatus::Done ==> final(self)@.completed_at is Some,
            status != TaskStatus::Done ==> final(self)@.completed_at == old(self)@.completed_at,
    {
        self.status = status;
        self.updated_at = crate::clock::now_millis();
        if status == TaskStatus::Done {
            self.completed_at = Some(crate::clock::now_millis());
        }
    }

    /// Adds an id to the dependency set and touches `updated_at`. Adding an
    /// id that is already present changes nothing but the timestamp.
    pub fn add_dependency(&mut self, dep_id: u32)
        ensures
            (final(self)@ == TaskView {
                dependencies: old(self)@.dependencies.insert(dep_id),
                updated_at: final(self)@.updated_at,
                ..old(self)@
            }),
    {
        if !contains_id(&self.dependencies, dep_id) {
            self.dependencies.push(dep_id);
            proof {
                assert forall|y: u32| #[trigger] self.dependencies@.contains(y)
                    <==> (old(self).dependencies@.contains(y) || y == dep_id) by {
                    lemma_contains_push(old(self).dependencies@, dep_id, y);
                }
            }
        }
        self.updated_at = crate::clock::now_millis();
        proof {
            assert(id_set(self.dependencies@)
                =~= id_set(old(self).dependencies@).insert(dep_id));
        }
    }

    /// Removes an id from the dependency set and touches `updated_at`.
    /// Removing an absent id changes nothing but the timestamp.
    pub fn remove_dependency(&mut self, dep_id: u32)
        ensures
            (final(self)@ == TaskView {
                dependencies: old(self)@.dependencies.remove(dep_id),
                updated_at: final(self)@.updated_at,
                ..old(self)@
            }),
    {
        let mut kept: Vec<u32> = Vec::new();
        let mut i: usize = 0;
        while i < self.dependencies.len()
            invariant
                i <= self.dependencies@.len(),
                forall|y: u32| #[trigger] kept@.contains(y)
                    <==> (self.dependencies@.take(i as int).contains(y) && y != dep_id),
            decreases self.dependencies@.len() - i,
        {
            let x = self.dependencies[i];
            let ghost prev_kept = kept@;
            if x != dep_id {
                kept.push(x);
            }
            proof {
                let prev = self.dependencies@.take(i as int);
                let next = self.dependencies@.take(i + 1);
                assert(next =~= prev.push(self.dependencies@[i as int]));
                assert forall|y: u32| #[trigger] kept@.contains(y)
                    <==> (next.contains(y) && y != dep_id) by {
                    lemma_contains_push(prev, self.dependencies@[i as int], y);
                    if x != dep_id {
                        lemma_contains_push(prev_kept, x, y);
                    }
                }
            }
            i += 1;
        }
        proof {
            assert(self.dependencies@.take(self.dependencies@.len() as int)
                =~= self.dependencies@);
        }
        self.dependencies = kept;
        self.updated_at = crate::clock::now_millis();
        proof {
            assert(id_set(self.dependencies@)
                =~= id_set(old(self).dependencies@).remove(dep_id));
        }
    }

    /// Appends a child id to the subtask list and touches `updated_at`.
    /// Duplicate appends are not rejected; the caller is responsible.
    pub fn add_subtask(&mut self, subtask_id: u32)
        ensures
            (final(self)@ == TaskView {
                subtasks: old(self)@.subtasks.push(subtask_id),
                updated_at: final(self)@.updated_at,
                ..old(self)@
            }),
    {
        self.subtasks.push(subtask_id);
        self.updated_at = crate::clock::now_millis();
    }

    /// Removes every occurrence of an id from the subtask list, keeping the
    /// order of the rest; reports whether anything was removed. Timestamps
    /// are left untouched.
    pub fn remove_subtask(&mut self, subtask_id: u32) -> (removed: bool)
        ensures
            (final(self)@ == TaskView {
                subtasks: old(self)@.subtasks.filter(|y: u32| y != subtask_id),
                ..old(self)@
            }),
            removed == old(self)@.subtasks.contains(subtask_id),
    {
        let had = contains_id(&self.subtasks, subtask_id);
        let ghost pred = |y: u32| y != subtask_id;
        let mut kept: Vec<u32> = Vec::new();
        let mut i: usize = 0;
        while i < self.subtasks.len()
            invariant
                i <= self.subtasks@.len(),
                kept@ == self.subtasks@.take(i as int).filter(|y: u32| y != subtask_id),
            decreases self.subtasks@.len() - i,
        {
            let x = self.subtasks[i];
            if x != subtask_id {
                kept.push(x);
            }
            proof {
                let prev = self.subtasks@.take(i as int);
                let next = self.subtasks@.take(i + 1);
                assert(next.drop_last() =~= prev);
                assert(next.last() == self.subtasks@[i as int]);
                reveal(Seq::filter);
            }
            i += 1;
        }
        proof {
            assert(self.subtasks@.take(self.subtasks@.len() as int) =~= self.subtasks@);
        }
        self.subtasks = kept;
        had
    }

    /// Replaces whichever of the four editable fields are given and touches
    /// `updated_at`; the rest of the task is unchanged.
    pub fn apply_edit(
        &mut self,
        title: Option<String>,
        description: Option<String>,
        priority: Option<Priority>,
        complexity: Option<Complexity>,
    )
        ensures
            (final(self)@ == TaskView {
                title: (match title {
                    Some(t) => t@,
                    None => old(self)@.title,
                }),
                description: (match description {
                    Some(d) => d@,
                    None => old(self)@.description,
                }),
                priority: (match priority {
                    Some(p) => p,
                    None => old(self)@.priority,
                }),
                complexity: (match complexity {
                    Some(c) => Some(c),
                    None => old(self)@.complexity,
                }),
                updated_at: final(self)@.updated_at,
                ..old(self)@
            }),
    {
        match title {
            Some(t) => {
                self.title = t;
            },
            None => {},
        }
        match description {
            Some(d) => {
                self.description = d;
            },
            None => {},
        }
        match priority {
            Some(p) => {
                self.priority = p;
            },
            None => {},
        }
        match complexity {
            Some(c) => {
                self.complexity = Some(c);
            },
            None => {},
        }
        self.updated_at = crate::clock::now_millis();
    }

    /// A task is ready to start exactly when its stored status is `Pending`
    /// and every dependency is among the completed ids. Any other stored
    /// status is never ready, whatever the dependencies.
    pub fn is_ready(&self, completed_tasks: &HashSet<u32>) -> (r: bool)
        ensures
            r == (self@.status == TaskStatus::Pending
                && self@.dependencies.subset_of(completed_tasks@)),
    {
        if self.status != TaskStatus::Pending {
            return false;
        }
        let mut i: usize = 0;
        while i < self.dependencies.len()
            invariant
                i <= self.dependencies@.len(),
                self@.status == TaskStatus::Pending,
                forall|k: int| 0 <= k < i
                    ==> completed_tasks@.contains(#[trigger] self.dependencies@[k]),
            decreases self.dependencies@.len() - i,
        {
            if !completed_tasks.contains(&self.dependencies[i]) {
                proof {
                    assert(self@.dependencies.contains(self.dependencies@[i as int]));
                }
                return false;
            }
            i += 1;
        }
        proof {
            assert forall|x: u32| self@.dependencies.contains(x)
                implies completed_tasks@.contains(x) by {
                let k = choose|k: int|
                    0 <= k < self.dependencies@.len() && self.dependencies@[k] == x;
                assert(completed_tasks@.contains(self.dependencies@[k]));
            }
        }
        true
    }
}

} // verus!
