//! The task store: a durable mapping from task id to task record.
//!
//! The store's model is a finite map from identifier to [`TaskView`]. Saving
//! is an upsert that overwrites the whole record; deleting removes exactly
//! the one record and never touches other tasks' dependency or subtask
//! references, so dangling references are an expected state. Identifier
//! allocation is `max(existing ids) + 1`, or `1` for an empty store: gaps
//! left by deletions are never refilled.

use vstd::prelude::*;
use crate::task::{Task, TaskView};

verus! {

/// Why a store operation failed.
#[derive(Clone, Copy, Debug, PartialEq, Eq, Structural)]
pub enum StoreError {
    /// The given id has no record.
    NotFound,
}

/// The map a list of records denotes: later records win, though the store
/// keeps at most one record per id.
pub open spec fn map_of(s: Seq<Task>) -> Map<u32, TaskView>
    decreases s.len(),
{
    if s.len() == 0 {
        Map::empty()
    } else {
        map_of(s.drop_last()).insert(s.last().id, s.last()@)
    }
}

/// No two records share an id.
pub open spec fn ids_unique(s: Seq<Task>) -> bool {
    forall|i: int, j: int| 0 <= i < j < s.len() ==> s[i].id != s[j].id
}

/// An id is in the map exactly when some record holds it.
proof fn lemma_map_of_contains(s: Seq<Task>, id: u32)
    ensures
        map_of(s).contains_key(id) <==> exists|i: int| 0 <= i < s.len() && s[i].id == id,
    decreases s.len(),
{
    if s.len() > 0 {
        lemma_map_of_contains(s.drop_last(), id);
        if s.last().id == id {
            assert(s[s.len() - 1].id == id);
        } else if map_of(s).contains_key(id) {
            let i = choose|i: int| 0 <= i < s.drop_last().len() && s.drop_last()[i].id == id;
            assert(s[i].id == id);
        } else if exists|i: int| 0 <= i < s.len() && s[i].id == id {
            let i = choose|i: int| 0 <= i < s.len() && s[i].id == id;
            assert(s.drop_last()[i].id == id);
        }
    }
}

/// With unique ids, the map sends each record's id to that record.
proof fn lemma_map_of_index(s: Seq<Task>, i: int)
    requires
        ids_unique(s),
        0 <= i < s.len(),
    ensures
        map_of(s).contains_key(s[i].id),
        map_of(s)[s[i].id] == s[i]@,
    decreases s.len(),
{
    if i == s.len() - 1 {
        assert(s.last() == s[i]);
    } else {
        assert(ids_unique(s.drop_last())) by {
            assert(forall|a: int, b: int| 0 <= a < b < s.drop_last().len()
                ==> s.drop_last()[a] == s[a] && s.drop_last()[b] == s[b]);
        }
        lemma_map_of_index(s.drop_last(), i);
        assert(s.drop_last()[i] == s[i]);
        assert(s.last().id != s[i].id);
    }
}

/// With unique ids, removing the record at one index removes exactly that
/// id from the map.
proof fn lemma_map_of_remove(s: Seq<Task>, i: int)
    requires
        ids_unique(s),
        0 <= i < s.len(),
    ensures
        map_of(s.remove(i)) == map_of(s).remove(s[i].id),
    decreases s.len(),
{
    if i == s.len() - 1 {
        assert(s.remove(i) =~= s.drop_last());
        lemma_map_of_contains(s.drop_last(), s[i].id);
        assert(forall|k: int| 0 <= k < s.drop_last().len() ==> s.drop_last()[k] == s[k]);
        assert(!map_of(s.drop_last()).contains_key(s[i].id));
        assert(map_of(s.drop_last()).insert(s.last().id, s.last()@).remove(s[i].id)
            =~= map_of(s.drop_last()));
    } else {
        assert(ids_unique(s.drop_last())) by {
            assert(forall|a: int, b: int| 0 <= a < b < s.drop_last().len()
                ==> s.drop_last()[a] == s[a] && s.drop_last()[b] == s[b]);
        }
        lemma_map_of_remove(s.drop_last(), i);
        let r = s.remove(i);
        assert(r.len() == s.len() - 1);
        assert(r.last() == s.last());
        assert(r.drop_last() =~= s.drop_last().remove(i));
        assert(s.drop_last()[i] == s[i]);
        assert(map_of(r) == map_of(s.drop_last()).remove(s[i].id).insert(s.last().id, s.last()@));
        assert(s.last().id != s[i].id);
        assert(map_of(s.drop_last()).remove(s[i].id).insert(s.last().id, s.last()@)
            =~= map_of(s.drop_last()).insert(s.last().id, s.last()@).remove(s[i].id));
    }
}

/// The durable mapping from task id to task record, in memory. Whatever the
/// backing medium, callers see a map: load one, list all, upsert by id,
/// delete by id, and allocate the next id from the current contents.
pub struct TaskStore {
    tasks: Vec<Task>,
}

impl View for TaskStore {
    type V = Map<u32, TaskView>;

    closed spec fn view(&self) -> Map<u32, TaskView> {
        map_of(self.tasks@)
    }
}

impl TaskStore {
    /// One record per id, so that the list and the map agree. Established
    /// by `new` and preserved by every operation.
    pub closed spec fn wf(&self) -> bool {
        ids_unique(self.tasks@)
    }

    /// An empty store.
    pub fn new() -> (s: TaskStore)
        ensures
            s.wf(),
            s@ == Map::<u32, TaskView>::empty(),
    {
        TaskStore { tasks: Vec::new() }
    }

    /// The index of the record with the given id, if any.
    fn index_of(&self, id: u32) -> (r: Option<usize>)
        ensures
            match r {
                Some(i) => i < self.tasks@.len() && self.tasks@[i as int].id == id,
                None => forall|k: int| 0 <= k < self.tasks@.len()
                    ==> self.tasks@[k].id != id,
            },
    {
        let mut i: usize = 0;
        while i < self.tasks.len()
            invariant
                i <= self.tasks@.len(),
                forall|k: int| 0 <= k < i ==> self.tasks@[k].id != id,
            decreases self.tasks@.len() - i,
        {
            if self.tasks[i].id == id {
                return Some(i);
            }
            i += 1;
        }
        None
    }

    /// The record stored under the given id, or `NotFound` exactly when
    /// there is none.
    pub fn load_task(&self, id: u32) -> (r: Result<Task, StoreError>)
        requires
            self.wf(),
        ensures
            match r {
                Ok(t) => self@.contains_key(id) && t@ == self@[id],
                Err(e) => e == StoreError::NotFound && !self@.contains_key(id),
            },
    {
        match self.index_of(id) {
            Some(i) => {
                proof {
                    lemma_map_of_index(self.tasks@, i as int);
                }
                Ok(self.tasks[i].duplicate())
            },
            None => {
                proof {
                    lemma_map_of_contains(self.tasks@, id);
                }
                Err(StoreError::NotFound)
            },
        }
    }

    /// Every stored record, each id exactly once; the order carries no
    /// meaning, and callers that need one must sort.
    pub fn list_all_tasks(&self) -> (r: Vec<Task>)
        requires
            self.wf(),
        ensures
            forall|i: int| 0 <= i < r@.len()
                ==> self@.contains_key(#[trigger] r@[i].id) && r@[i]@ == self@[r@[i].id],
            forall|i: int, j: int| 0 <= i < j < r@.len() ==> r@[i].id != r@[j].id,
            forall|id: u32| #[trigger] self@.contains_key(id)
                ==> exists|i: int| 0 <= i < r@.len() && r@[i].id == id,
    {
        let mut r: Vec<Task> = Vec::new();
        let mut i: usize = 0;
        while i < self.tasks.len()
            invariant
                i <= self.tasks@.len(),
                ids_unique(self.tasks@),
                self@ == map_of(self.tasks@),
                r@.len() == i,
                forall|k: int| 0 <= k < i ==> r@[k]@ == self.tasks@[k]@,
            decreases self.tasks@.len() - i,
        {
            r.push(self.tasks[i].duplicate());
            i += 1;
        }
        proof {
            assert forall|k: int| 0 <= k < r@.len()
                implies self@.contains_key(#[trigger] r@[k].id) && r@[k]@ == self@[r@[k].id] by {
                lemma_map_of_index(self.tasks@, k);
                assert(r@[k].id == r@[k]@.id);
                assert(r@[k]@.id == self.tasks@[k]@.id);
            }
            assert forall|id: u32| #[trigger] self@.contains_key(id)
                implies exists|i: int| 0 <= i < r@.len() && r@[i].id == id by {
                lemma_map_of_contains(self.tasks@, id);
                let i = choose|i: int| 0 <= i < self.tasks@.len() && self.tasks@[i].id == id;
                assert(r@[i].id == r@[i]@.id);
                assert(r@[i]@ == self.tasks@[i]@);
            }
            assert forall|i: int, j: int| 0 <= i < j < r@.len()
                implies r@[i].id != r@[j].id by {
                assert(r@[i].id == r@[i]@.id && r@[j].id == r@[j]@.id);
                assert(r@[i]@ == self.tasks@[i]@ && r@[j]@ == self.tasks@[j]@);
            }
        }
        r
    }

    /// Upsert: stores the record whole under its id, overwriting any prior
    /// record with that id.
    pub fn save_task(&mut self, task: &Task)
        requires
            old(self).wf(),
        ensures
            final(self).wf(),
            final(self)@ == old(self)@.insert(task.id, task@),
    {
        let ghost s0 = self.tasks@;
        match self.index_of(task.id) {
            Some(i) => {
                proof {
                    lemma_map_of_remove(s0, i as int);
                }
                self.tasks.remove(i);
                proof {
                    assert(ids_unique(self.tasks@)) by {
                        assert(forall|a: int| 0 <= a < i
                            ==> #[trigger] self.tasks@[a] == s0[a]);
                        assert(forall|a: int| i <= a < self.tasks@.len()
                            ==> #[trigger] self.tasks@[a] == s0[a + 1]);
                    }
                    lemma_map_of_contains(self.tasks@, task.id);
                    assert(forall|k: int| 0 <= k < self.tasks@.len()
                        ==> #[trigger] self.tasks@[k].id != task.id) by {
                        assert(forall|a: int| 0 <= a < i
                            ==> #[trigger] self.tasks@[a] == s0[a]);
                        assert(forall|a: int| i <= a < self.tasks@.len()
                            ==> #[trigger] self.tasks@[a] == s0[a + 1]);
                    }
                }
                self.tasks.push(task.duplicate());
                proof {
                    let last = self.tasks@.last();
                    assert(last.id == last@.id && last@ == task@);
                    assert(self.tasks@.drop_last() =~= s0.remove(i as int));
                    assert(self.tasks@.drop_last() == s0.remove(i as int));
                    assert(map_of(self.tasks@)
                        == map_of(s0.remove(i as int)).insert(task.id, task@));
                    assert(map_of(s0).remove(s0[i as int].id).insert(task.id, task@)
                        =~= map_of(s0).insert(task.id, task@));
                    assert(ids_unique(self.tasks@)) by {
                        assert(forall|a: int| 0 <= a < self.tasks@.len() - 1
                            ==> #[trigger] self.tasks@[a] == s0.remove(i as int)[a]);
                    }
                }
            },
            None => {
                self.tasks.push(task.duplicate());
                proof {
                    let last = self.tasks@.last();
                    assert(last.id == last@.id && last@ == task@);
                    assert(self.tasks@.drop_last() =~= s0);
                    assert(self.tasks@.drop_last() == s0);
                    assert(map_of(self.tasks@) == map_of(s0).insert(task.id, task@));
                    assert(ids_unique(self.tasks@)) by {
                        assert(forall|a: int| 0 <= a < self.tasks@.len() - 1
                            ==> #[trigger] self.tasks@[a] == s0[a]);
                    }
                }
            },
        }
    }

    /// Removes the one record under the given id, or fails with `NotFound`
    /// exactly when there is none. Other tasks' dependency and subtask
    /// references to the id are left as they are: they simply dangle.
    pub fn delete_task(&mut self, id: u32) -> (r: Result<(), StoreError>)
        requires
            old(self).wf(),
        ensures
            final(self).wf(),
            match r {
                Ok(_) => old(self)@.contains_key(id)
                    && final(self)@ == old(self)@.remove(id),
                Err(e) => e == StoreError::NotFound && !old(self)@.contains_key(id)
                    && final(self)@ == old(self)@,
            },
    {
        let ghost s0 = self.tasks@;
        match self.index_of(id) {
            Some(i) => {
                proof {
                    lemma_map_of_index(s0, i as int);
                    lemma_map_of_remove(s0, i as int);
                }
                self.tasks.remove(i);
                proof {
                    assert(ids_unique(self.tasks@)) by {
                        assert(forall|a: int| 0 <= a < i
                            ==> #[trigger] self.tasks@[a] == s0[a]);
                        assert(forall|a: int| i <= a < self.tasks@.len()
                            ==> #[trigger] self.tasks@[a] == s0[a + 1]);
                    }
                }
                Ok(())
            },
            None => {
                proof {
                    lemma_map_of_contains(s0, id);
                }
                Err(StoreError::NotFound)
            },
        }
    }

    /// The next identifier to assign: one more than the largest id in the
    /// store, or `1` when the store is empty. Computed fresh from the
    /// current contents on every call; gaps are never refilled.
    pub fn next_id(&self) -> (r: u32)
        requires
            self.wf(),
            forall|id: u32| self@.contains_key(id) ==> id < u32::MAX,
        ensures
            r >= 1,
            forall|id: u32| self@.contains_key(id) ==> id < r,
            (forall|id: u32| !self@.contains_key(id)) ==> r == 1,
            (exists|id: u32| self@.contains_key(id)) ==> self@.contains_key((r - 1) as u32),
    {
        let mut max: u32 = 0;
        let mut i: usize = 0;
        while i < self.tasks.len()
            invariant
                i <= self.tasks@.len(),
                ids_unique(self.tasks@),
                self@ == map_of(self.tasks@),
                forall|id: u32| self@.contains_key(id) ==> id < u32::MAX,
                forall|k: int| 0 <= k < i ==> #[trigger] self.tasks@[k].id <= max,
                max != 0 ==> exists|k: int| 0 <= k < i && self.tasks@[k].id == max,
                max == 0 ==> forall|k: int| 0 <= k < i ==> #[trigger] self.tasks@[k].id == 0,
                max < u32::MAX,
            decreases self.tasks@.len() - i,
        {
            let id = self.tasks[i].id;
            proof {
                lemma_map_of_index(self.tasks@, i as int);
            }
            if id > max {
                max = id;
            }
            i += 1;
        }
        proof {
            assert forall|id: u32| self@.contains_key(id) implies id < max + 1 by {
                lemma_map_of_contains(self.tasks@, id);
            }
            if self.tasks@.len() > 0 {
                lemma_map_of_index(self.tasks@, 0);
                if max == 0 {
                    assert(self.tasks@[0].id == 0);
                    assert(self@.contains_key(0u32));
                } else {
                    let k = choose|k: int|
                        0 <= k < self.tasks@.len() && self.tasks@[k].id == max;
                    lemma_map_of_index(self.tasks@, k);
                    assert(self@.contains_key(max));
                }
            } else {
                assert forall|id: u32| !self@.contains_key(id) by {
                    lemma_map_of_contains(self.tasks@, id);
                }
            }
        }
        max + 1
    }
}

} // verus!
