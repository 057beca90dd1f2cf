use trusty::generate::GeneratedTask;
use trusty::parse::{parse_complexity, parse_priority, parse_status, ValidationError};
use trusty::task::{Complexity, Priority, TaskStatus};

#[test]
fn parse_status_accepts_the_whole_vocabulary() {
    assert_eq!(parse_status("pending"), Ok(TaskStatus::Pending));
    assert_eq!(parse_status("in-progress"), Ok(TaskStatus::InProgress));
    assert_eq!(parse_status("done"), Ok(TaskStatus::Done));
    assert_eq!(parse_status("blocked"), Ok(TaskStatus::Blocked));
    assert_eq!(parse_status("deferred"), Ok(TaskStatus::Deferred));
    assert_eq!(parse_status("cancelled"), Ok(TaskStatus::Cancelled));
}

#[test]
fn parse_status_is_case_insensitive() {
    assert_eq!(parse_status("PENDING"), Ok(TaskStatus::Pending));
    assert_eq!(parse_status("In-Progress"), Ok(TaskStatus::InProgress));
    assert_eq!(parse_status("DoNe"), Ok(TaskStatus::Done));
}

#[test]
fn parse_status_rejects_anything_else() {
    assert_eq!(parse_status("started"), Err(ValidationError::InvalidStatus));
    assert_eq!(parse_status(""), Err(ValidationError::InvalidStatus));
    assert_eq!(parse_status("done "), Err(ValidationError::InvalidStatus));
}

#[test]
fn parse_priority_accepts_and_rejects() {
    assert_eq!(parse_priority("high"), Ok(Priority::High));
    assert_eq!(parse_priority("MEDIUM"), Ok(Priority::Medium));
    assert_eq!(parse_priority("Low"), Ok(Priority::Low));
    assert_eq!(parse_priority("urgent"), Err(ValidationError::InvalidPriority));
}

#[test]
fn parse_complexity_accepts_and_rejects() {
    assert_eq!(parse_complexity("simple"), Ok(Complexity::Simple));
    assert_eq!(parse_complexity("Medium"), Ok(Complexity::Medium));
    assert_eq!(parse_complexity("COMPLEX"), Ok(Complexity::Complex));
    assert_eq!(parse_complexity("hard"), Err(ValidationError::InvalidComplexity));
}

#[test]
fn generated_task_with_valid_priority_enters_the_graph() {
    let g = GeneratedTask {
        title: "set up CI".to_string(),
        description: "runs the test suite on every push".to_string(),
        priority: "HIGH".to_string(),
        tags: vec!["infra".to_string(), "testing".to_string()],
    };
    let t = g.into_task(12).unwrap();
    assert_eq!(t.id, 12);
    assert_eq!(t.title, "set up CI");
    assert_eq!(t.description, "runs the test suite on every push");
    assert_eq!(t.priority, Priority::High);
    assert_eq!(t.status, TaskStatus::Pending);
    assert_eq!(t.tags, vec!["infra".to_string(), "testing".to_string()]);
    assert!(t.dependencies.is_empty());
    assert!(t.subtasks.is_empty());
}

#[test]
fn generated_task_with_bad_priority_is_rejected() {
    let g = GeneratedTask {
        title: "anything".to_string(),
        description: String::new(),
        priority: "critical".to_string(),
        tags: vec![],
    };
    assert_eq!(g.into_task(1).unwrap_err(), ValidationError::InvalidPriority);
}
