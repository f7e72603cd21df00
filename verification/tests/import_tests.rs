use todore::fmt::{Formatter, JsonFormatter};
use todore::list::TaskList;
use todore::task::{Task, TaskStatus};

#[test]
fn test_tasklist_export_import() {
    let mut list = TaskList::new();
    list.add(Task::new(1, "Task 1".to_string()));
    list.add(Task::new(2, "Task 2".to_string()));

    // Export to JSON
    let json_formatter = JsonFormatter::new();
    let json_str = list.export_to_string(&json_formatter).unwrap();

    // Import into new list
    let mut new_list = TaskList::new();
    new_list.import(&json_str).unwrap();

    // Verify import worked
    assert_eq!(new_list.tasks.len(), 2);
    assert_eq!(new_list.tasks[0].id, 1);
    assert_eq!(new_list.tasks[0].description, "Task 1");
    assert_eq!(new_list.tasks[1].id, 2);
    assert_eq!(new_list.tasks[1].description, "Task 2");
}

#[test]
fn test_tasklist_import_invalid_json() {
    let mut list = TaskList::new();
    let result = list.import("invalid json");
    assert!(result.is_err());
}

#[test]
fn test_import_failure_keeps_existing_tasks() {
    let mut list = TaskList::new();
    list.add(Task::new(1, "untouched".to_string()));

    assert!(list.import("invalid json").is_err());

    assert_eq!(list.tasks.len(), 1);
    assert_eq!(list.tasks[0].id, 1);
    assert_eq!(list.tasks[0].description, "untouched");
}

#[test]
fn test_export_import_round_trip_statuses_and_order() {
    let mut list = TaskList::new();
    list.add(Task::new(1, "Task 1".to_string()));
    list.add(Task::new(2, "Task 2".to_string()));
    list.update_status(2, TaskStatus::Completed).unwrap();

    let formatter = JsonFormatter::new();
    let exported = list.export_to_string(&formatter).unwrap();

    let mut fresh = TaskList::new();
    fresh.import(&exported).unwrap();

    assert_eq!(fresh.tasks.len(), 2);
    assert_eq!(fresh.tasks[0].id, 1);
    assert!(matches!(fresh.tasks[0].status, TaskStatus::NotStarted));
    assert_eq!(fresh.tasks[1].id, 2);
    assert!(matches!(fresh.tasks[1].status, TaskStatus::Completed));
}

#[test]
fn test_export_import_round_trip_empty() {
    let list = TaskList::new();
    let formatter = JsonFormatter::new();
    let exported = list.export_to_string(&formatter).unwrap();

    let mut fresh = TaskList::new();
    fresh.add(Task::new(9, "gone after import".to_string()));
    fresh.import(&exported).unwrap();
    assert_eq!(fresh.tasks.len(), 0);
}

#[test]
fn test_export_import_round_trip_escaped_description() {
    let mut list = TaskList::new();
    list.add(Task::new(1, "line\nbreak \"q\" back\\slash \u{1}".to_string()));

    let formatter = JsonFormatter::new();
    let exported = list.export_to_string(&formatter).unwrap();

    let mut fresh = TaskList::new();
    fresh.import(&exported).unwrap();
    assert_eq!(
        fresh.tasks[0].description,
        "line\nbreak \"q\" back\\slash \u{1}"
    );
}

#[test]
fn test_import_accepts_flexible_whitespace() {
    let payload = "  {  \"tasks\" :\n[\t{ \"id\" : 3 , \"description\" : \"x\" , \"status\" : \"InProgress\" } ]\n}  ";
    let mut list = TaskList::new();
    list.import(payload).unwrap();
    assert_eq!(list.tasks.len(), 1);
    assert_eq!(list.tasks[0].id, 3);
    assert_eq!(list.tasks[0].description, "x");
    assert!(matches!(list.tasks[0].status, TaskStatus::InProgress));
}

#[test]
fn test_import_rejects_trailing_garbage() {
    let mut list = TaskList::new();
    let payload = "{\n  \"tasks\": []\n} extra";
    assert!(list.import(payload).is_err());
}

#[test]
fn test_import_rejects_unknown_status() {
    let mut list = TaskList::new();
    let payload =
        "{ \"tasks\": [ { \"id\": 1, \"description\": \"x\", \"status\": \"Done\" } ] }";
    assert!(list.import(payload).is_err());
}

#[test]
fn test_import_rejects_oversized_id() {
    let mut list = TaskList::new();
    let ok = "{ \"tasks\": [ { \"id\": 4294967295, \"description\": \"x\", \"status\": \"Completed\" } ] }";
    list.import(ok).unwrap();
    assert_eq!(list.tasks[0].id, 4294967295);

    let too_big = "{ \"tasks\": [ { \"id\": 4294967296, \"description\": \"x\", \"status\": \"Completed\" } ] }";
    let result = list.import(too_big);
    assert!(result.is_err());
    // the failed import leaves the earlier contents alone
    assert_eq!(list.tasks.len(), 1);
    assert_eq!(list.tasks[0].id, 4294967295);
}

