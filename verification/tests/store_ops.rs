use trusty::store::{StoreError, TaskStore};
use trusty::task::{Complexity, Priority, Task, TaskStatus};

fn simple(id: u32) -> Task {
    Task::new(id, format!("task {}", id), String::new(), Priority::Medium)
}

#[test]
fn first_id_in_empty_store_is_one() {
    let store = TaskStore::new();
    assert_eq!(store.next_id(), 1);
}

#[test]
fn next_id_is_max_plus_one_never_filling_gaps() {
    let mut store = TaskStore::new();
    store.save_task(&simple(1));
    store.save_task(&simple(3));
    store.save_task(&simple(5));
    assert_eq!(store.next_id(), 6);
}

#[test]
fn next_id_recomputed_after_deletion_still_skips_gaps() {
    let mut store = TaskStore::new();
    store.save_task(&simple(1));
    store.save_task(&simple(3));
    store.save_task(&simple(5));
    store.delete_task(3).unwrap();
    assert_eq!(store.next_id(), 6);
}

#[test]
fn save_then_load_returns_equal_task() {
    let mut store = TaskStore::new();
    let mut t = Task::new(
        7,
        "write the report".to_string(),
        "the quarterly one".to_string(),
        Priority::High,
    );
    t.complexity = Some(Complexity::Complex);
    t.add_dependency(2);
    t.add_dependency(3);
    t.add_subtask(9);
    t.tags = vec!["work".to_string(), "writing".to_string()];
    t.set_status(TaskStatus::Done);

    store.save_task(&t);
    let loaded = store.load_task(7).unwrap();

    assert_eq!(loaded.id, t.id);
    assert_eq!(loaded.title, t.title);
    assert_eq!(loaded.description, t.description);
    assert_eq!(loaded.status, t.status);
    assert_eq!(loaded.priority, t.priority);
    assert_eq!(loaded.complexity, t.complexity);
    assert_eq!(loaded.dependencies, t.dependencies);
    assert_eq!(loaded.subtasks, t.subtasks);
    assert_eq!(loaded.created_at, t.created_at);
    assert_eq!(loaded.updated_at, t.updated_at);
    assert_eq!(loaded.completed_at, t.completed_at);
    assert_eq!(loaded.tags, t.tags);
    assert_eq!(loaded, t);
}

#[test]
fn load_of_missing_id_is_not_found() {
    let store = TaskStore::new();
    assert_eq!(store.load_task(4).unwrap_err(), StoreError::NotFound);
}

#[test]
fn delete_of_missing_id_is_not_found() {
    let mut store = TaskStore::new();
    store.save_task(&simple(1));
    assert_eq!(store.delete_task(2).unwrap_err(), StoreError::NotFound);
    assert!(store.load_task(1).is_ok());
}

#[test]
fn save_is_an_upsert_overwriting_the_whole_record() {
    let mut store = TaskStore::new();
    let mut t = simple(1);
    t.tags = vec!["old".to_string()];
    store.save_task(&t);

    let mut newer = simple(1);
    newer.title = "renamed".to_string();
    store.save_task(&newer);

    let loaded = store.load_task(1).unwrap();
    assert_eq!(loaded.title, "renamed");
    assert!(loaded.tags.is_empty());
    assert_eq!(store.list_all_tasks().len(), 1);
}

#[test]
fn list_all_tasks_returns_every_record() {
    let mut store = TaskStore::new();
    store.save_task(&simple(1));
    store.save_task(&simple(2));
    store.save_task(&simple(5));
    let mut ids: Vec<u32> = store.list_all_tasks().iter().map(|t| t.id).collect();
    ids.sort();
    assert_eq!(ids, vec![1, 2, 5]);
}

#[test]
fn delete_leaves_dangling_references_untouched() {
    let mut store = TaskStore::new();
    let mut parent = simple(1);
    parent.add_subtask(2);
    parent.add_dependency(2);
    store.save_task(&parent);
    store.save_task(&simple(2));

    // deleting a referenced task succeeds and touches nothing else
    assert!(store.delete_task(2).is_ok());

    let still_there = store.load_task(1).unwrap();
    assert_eq!(still_there.subtasks, vec![2]);
    assert_eq!(still_there.dependencies, vec![2]);

    // aggregation over the referencing task silently skips the missing id
    let all = store.list_all_tasks();
    assert_eq!(
        still_there.compute_effective_status(&all),
        TaskStatus::Pending
    );
    assert_eq!(still_there.subtask_progress(&all), (0, 1));
}
