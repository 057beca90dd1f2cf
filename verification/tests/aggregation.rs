use trusty::task::{Priority, Task, TaskStatus};

fn leaf(id: u32, status: TaskStatus) -> Task {
    let mut t = Task::new(id, format!("task {}", id), String::new(), Priority::Medium);
    t.set_status(status);
    t
}

fn parent(id: u32, status: TaskStatus, subtasks: &[u32]) -> Task {
    let mut t = leaf(id, status);
    for &s in subtasks {
        t.add_subtask(s);
    }
    t
}

#[test]
fn leaf_reports_stored_status() {
    let t = leaf(1, TaskStatus::InProgress);
    let all = vec![t.clone()];
    assert_eq!(t.compute_effective_status(&all), TaskStatus::InProgress);
}

#[test]
fn all_children_done_makes_parent_done() {
    let p = parent(1, TaskStatus::Pending, &[2, 3]);
    let all = vec![p.clone(), leaf(2, TaskStatus::Done), leaf(3, TaskStatus::Done)];
    assert_eq!(p.compute_effective_status(&all), TaskStatus::Done);
}

#[test]
fn all_children_done_overrides_stored_status() {
    let p = parent(1, TaskStatus::Blocked, &[2]);
    let all = vec![p.clone(), leaf(2, TaskStatus::Done)];
    assert_eq!(p.compute_effective_status(&all), TaskStatus::Done);
}

#[test]
fn cancelled_outranks_in_progress() {
    let p = parent(1, TaskStatus::Pending, &[2, 3]);
    let all = vec![
        p.clone(),
        leaf(2, TaskStatus::Cancelled),
        leaf(3, TaskStatus::InProgress),
    ];
    assert_eq!(p.compute_effective_status(&all), TaskStatus::Blocked);
}

#[test]
fn blocked_child_blocks_parent() {
    let p = parent(1, TaskStatus::Pending, &[2, 3]);
    let all = vec![p.clone(), leaf(2, TaskStatus::Blocked), leaf(3, TaskStatus::Done)];
    assert_eq!(p.compute_effective_status(&all), TaskStatus::Blocked);
}

#[test]
fn in_progress_child_makes_parent_in_progress() {
    let p = parent(1, TaskStatus::Pending, &[2, 3]);
    let all = vec![
        p.clone(),
        leaf(2, TaskStatus::InProgress),
        leaf(3, TaskStatus::Pending),
    ];
    assert_eq!(p.compute_effective_status(&all), TaskStatus::InProgress);
}

#[test]
fn all_deferred_children_defer_parent() {
    let p = parent(1, TaskStatus::Pending, &[2, 3]);
    let all = vec![p.clone(), leaf(2, TaskStatus::Deferred), leaf(3, TaskStatus::Deferred)];
    assert_eq!(p.compute_effective_status(&all), TaskStatus::Deferred);
}

#[test]
fn pending_sibling_breaks_deferral() {
    let p = parent(1, TaskStatus::Pending, &[2, 3, 4]);
    let all = vec![
        p.clone(),
        leaf(2, TaskStatus::Deferred),
        leaf(3, TaskStatus::Deferred),
        leaf(4, TaskStatus::Pending),
    ];
    assert_eq!(p.compute_effective_status(&all), TaskStatus::Pending);
}

#[test]
fn mixed_pending_and_done_is_pending() {
    let p = parent(1, TaskStatus::Pending, &[2, 3]);
    let all = vec![p.clone(), leaf(2, TaskStatus::Done), leaf(3, TaskStatus::Pending)];
    assert_eq!(p.compute_effective_status(&all), TaskStatus::Pending);
}

#[test]
fn all_dangling_subtasks_fall_back_to_stored_status() {
    let p = parent(1, TaskStatus::InProgress, &[98, 99]);
    let all = vec![p.clone()];
    assert_eq!(p.compute_effective_status(&all), TaskStatus::InProgress);
}

#[test]
fn dangling_subtask_is_skipped_not_counted() {
    let p = parent(1, TaskStatus::Pending, &[2, 99]);
    let all = vec![p.clone(), leaf(2, TaskStatus::Done)];
    // the dangling id 99 is skipped, so the only aggregated child is Done
    assert_eq!(p.compute_effective_status(&all), TaskStatus::Done);
}

#[test]
fn aggregation_recurses_through_nested_subtrees() {
    // 1 -> 2 -> 3; only the grandchild is stored Done
    let p = parent(1, TaskStatus::Pending, &[2]);
    let mid = parent(2, TaskStatus::Pending, &[3]);
    let all = vec![p.clone(), mid, leaf(3, TaskStatus::Done)];
    // 2's effective status is Done (all its children are), so 1's is too
    assert_eq!(p.compute_effective_status(&all), TaskStatus::Done);
}

#[test]
fn progress_counts_dangling_ids_in_total_only() {
    let p = parent(1, TaskStatus::Pending, &[2, 99]);
    let all = vec![p.clone(), leaf(2, TaskStatus::Done)];
    let (completed, total) = p.subtask_progress(&all);
    assert_eq!(total, 2);
    assert_eq!(completed, 1);
}

#[test]
fn progress_uses_effective_status_of_children() {
    // child 2 is stored Pending but effectively Done through its own child
    let p = parent(1, TaskStatus::Pending, &[2]);
    let mid = parent(2, TaskStatus::Pending, &[3]);
    let all = vec![p.clone(), mid, leaf(3, TaskStatus::Done)];
    let (completed, total) = p.subtask_progress(&all);
    assert_eq!(total, 1);
    assert_eq!(completed, 1);
}

#[test]
fn progress_of_leaf_is_zero_of_zero() {
    let t = leaf(1, TaskStatus::Done);
    let all = vec![t.clone()];
    assert_eq!(t.subtask_progress(&all), (0, 0));
}
