use std::collections::HashSet;
use trusty::task::{Complexity, Priority, Task, TaskStatus};

fn simple(id: u32) -> Task {
    Task::new(id, format!("task {}", id), String::new(), Priority::Medium)
}

#[test]
fn new_task_has_documented_defaults() {
    let t = Task::new(
        4,
        "title".to_string(),
        "description".to_string(),
        Priority::Low,
    );
    assert_eq!(t.id, 4);
    assert_eq!(t.title, "title");
    assert_eq!(t.description, "description");
    assert_eq!(t.status, TaskStatus::Pending);
    assert_eq!(t.priority, Priority::Low);
    assert_eq!(t.complexity, None);
    assert!(t.dependencies.is_empty());
    assert!(t.subtasks.is_empty());
    assert!(t.tags.is_empty());
    assert_eq!(t.created_at, t.updated_at);
    assert_eq!(t.completed_at, None);
}

#[test]
fn set_status_to_done_records_completion() {
    let mut t = simple(1);
    assert_eq!(t.completed_at, None);
    t.set_status(TaskStatus::Done);
    assert_eq!(t.status, TaskStatus::Done);
    assert!(t.completed_at.is_some());
}

#[test]
fn completed_at_is_not_cleared_when_status_regresses() {
    let mut t = simple(1);
    t.set_status(TaskStatus::Done);
    let stamp = t.completed_at;
    t.set_status(TaskStatus::Pending);
    assert_eq!(t.status, TaskStatus::Pending);
    assert_eq!(t.completed_at, stamp);
}

#[test]
fn add_dependency_is_idempotent() {
    let mut t = simple(1);
    t.add_dependency(2);
    t.add_dependency(2);
    assert_eq!(t.dependencies, vec![2]);
}

#[test]
fn remove_dependency_of_missing_id_is_a_no_op() {
    let mut t = simple(1);
    t.add_dependency(2);
    t.remove_dependency(9);
    assert_eq!(t.dependencies, vec![2]);
    t.remove_dependency(2);
    assert!(t.dependencies.is_empty());
}

#[test]
fn add_subtask_keeps_order_and_allows_duplicates() {
    let mut t = simple(1);
    t.add_subtask(3);
    t.add_subtask(2);
    t.add_subtask(3);
    assert_eq!(t.subtasks, vec![3, 2, 3]);
}

#[test]
fn remove_subtask_removes_every_occurrence() {
    let mut t = simple(1);
    t.add_subtask(2);
    t.add_subtask(3);
    t.add_subtask(2);
    assert!(t.remove_subtask(2));
    assert_eq!(t.subtasks, vec![3]);
    assert!(!t.remove_subtask(9));
    assert_eq!(t.subtasks, vec![3]);
}

#[test]
fn apply_edit_replaces_only_the_given_fields() {
    let mut t = Task::new(1, "old title".to_string(), "old text".to_string(), Priority::Low);
    t.apply_edit(Some("new title".to_string()), None, Some(Priority::High), None);
    assert_eq!(t.title, "new title");
    assert_eq!(t.description, "old text");
    assert_eq!(t.priority, Priority::High);
    assert_eq!(t.complexity, None);

    t.apply_edit(None, Some("new text".to_string()), None, Some(Complexity::Simple));
    assert_eq!(t.title, "new title");
    assert_eq!(t.description, "new text");
    assert_eq!(t.complexity, Some(Complexity::Simple));
}

#[test]
fn pending_task_is_ready_exactly_when_dependencies_are_completed() {
    let mut t = simple(1);
    t.add_dependency(2);
    t.add_dependency(3);

    let mut completed: HashSet<u32> = HashSet::new();
    assert!(!t.is_ready(&completed));
    completed.insert(2);
    assert!(!t.is_ready(&completed));
    completed.insert(3);
    assert!(t.is_ready(&completed));
    completed.insert(4);
    assert!(t.is_ready(&completed));
}

#[test]
fn non_pending_task_is_never_ready() {
    let mut t = simple(1);
    t.set_status(TaskStatus::InProgress);
    let completed: HashSet<u32> = HashSet::new();
    assert!(!t.is_ready(&completed));
}

#[test]
fn duplicate_is_equal_in_every_field() {
    let mut t = simple(1);
    t.add_dependency(2);
    t.add_subtask(3);
    t.tags = vec!["a".to_string(), "b".to_string()];
    t.set_status(TaskStatus::Done);
    let copy = t.duplicate();
    assert_eq!(copy, t);
}

#[test]
fn labels_are_the_canonical_spellings() {
    assert_eq!(TaskStatus::Pending.label(), "pending");
    assert_eq!(TaskStatus::InProgress.label(), "in-progress");
    assert_eq!(TaskStatus::Done.label(), "done");
    assert_eq!(TaskStatus::Blocked.label(), "blocked");
    assert_eq!(TaskStatus::Deferred.label(), "deferred");
    assert_eq!(TaskStatus::Cancelled.label(), "cancelled");
    assert_eq!(Priority::High.label(), "high");
    assert_eq!(Priority::Medium.label(), "medium");
    assert_eq!(Priority::Low.label(), "low");
    assert_eq!(Complexity::Simple.label(), "simple");
    assert_eq!(Complexity::Medium.label(), "medium");
    assert_eq!(Complexity::Complex.label(), "complex");
}
