use todore::task::{Task, TaskStatus};

#[test]
fn test_task_new() {
    let task = Task::new(42, "Test task".to_string());
    assert_eq!(task.id, 42);
    assert_eq!(task.description, "Test task");
    assert!(matches!(task.status, TaskStatus::NotStarted));
}

#[test]
fn test_taskstatus_fromstr_valid() {
    assert!(matches!(
        TaskStatus::from_str("not started"),
        Ok(TaskStatus::NotStarted)
    ));
    assert!(matches!(
        TaskStatus::from_str("ns"),
        Ok(TaskStatus::NotStarted)
    ));
    assert!(matches!(
        TaskStatus::from_str("in progress"),
        Ok(TaskStatus::InProgress)
    ));
    assert!(matches!(
        TaskStatus::from_str("ip"),
        Ok(TaskStatus::InProgress)
    ));
    assert!(matches!(
        TaskStatus::from_str("completed"),
        Ok(TaskStatus::Completed)
    ));
    assert!(matches!(
        TaskStatus::from_str("c"),
        Ok(TaskStatus::Completed)
    ));
}

#[test]
fn test_taskstatus_fromstr_invalid() {
    assert!(TaskStatus::from_str("invalid").is_err());
    assert!(TaskStatus::from_str("").is_err());
    assert!(TaskStatus::from_str("notstarted").is_err());
    assert!(TaskStatus::from_str("done").is_err());
}

#[test]
fn test_taskstatus_display() {
    assert_eq!(TaskStatus::NotStarted.display_name(), "Not Started");
    assert_eq!(TaskStatus::InProgress.display_name(), "In Progress");
    assert_eq!(TaskStatus::Completed.display_name(), "Completed");
}
