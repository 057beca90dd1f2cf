//! Task fields proposed by the external generation collaborator.
//!
//! The collaborator is a black box that turns a natural-language prompt into
//! proposed task fields, or a proposed decomposition into subtask fields.
//! Whatever it produces is untrusted text: the priority must parse into the
//! closed vocabulary before the fields may enter the task graph, and that
//! validation happens here.

use vstd::prelude::*;
use crate::parse::{parse_priority, priority_from_chars, ValidationError};
use crate::task::{Task, TaskStatus};

verus! {

/// Proposed fields for one task, before validation. The priority is free
/// text until `into_task` accepts it.
#[derive(Debug, Clone, PartialEq)]
pub struct GeneratedTask {
    pub title: String,
    pub description: String,
    pub priority: String,
    pub tags: Vec<String>,
}

/// A proposed decomposition of one task into subtasks.
#[derive(Debug, Clone, PartialEq)]
pub struct DecomposedTask {
    pub subtasks: Vec<GeneratedTask>,
}

impl GeneratedTask {
    /// Validates the proposed fields and builds the task that enters the
    /// graph under the given id: a fresh `Pending` task carrying the
    /// proposed title, description and tags. Priority text outside
    /// `{high, medium, low}` (up to ASCII case) is rejected and no task is
    /// built.
    pub fn into_task(self, id: u32) -> (r: Result<Task, ValidationError>)
        ensures
            (match r {
                Ok(t) => {
                    &&& priority_from_chars(self.priority@) == Some(t@.priority)
                    &&& t@.id == id
                    &&& t@.title == self.title@
                    &&& t@.description == self.description@
                    &&& t@.status == TaskStatus::Pending
                    &&& t@.complexity is None
                    &&& t@.dependencies == Set::<u32>::empty()
                    &&& t@.subtasks == Seq::<u32>::empty()
                    &&& t@.completed_at is None
                    &&& t@.created_at == t@.updated_at
                    &&& t@.tags == self.tags@.map_values(|s: String| s@)
                },
                Err(e) => e == ValidationError::InvalidPriority
                    && priority_from_chars(self.priority@) is None,
            }),
    {
        let GeneratedTask { title, description, priority, tags } = self;
        match parse_priority(priority.as_str()) {
            Ok(p) => {
                let mut t = Task::new(id, title, description, p);
                t.tags = tags;
                Ok(t)
            },
            Err(e) => Err(e),
        }
    }
}

} // verus!
