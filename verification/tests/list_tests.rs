use todore::list::TaskList;
use todore::task::{Task, TaskStatus};

#[test]
fn test_update_status() {
    let mut list = TaskList::new();

    list.add(Task::new(1, "Test".into()));
    assert!(matches!(list.tasks.len(), 1));

    list.update_status(1, TaskStatus::InProgress).unwrap();
    assert!(matches!(list.tasks[0].status, TaskStatus::InProgress));
}

#[test]
fn test_update_description() {
    let mut list = TaskList::new();

    list.add(Task::new(2, "Test2".into()));
    let new_description = "Test123";

    list.update_description(2, new_description.into()).unwrap();
    assert_eq!(list.tasks[0].description, new_description);
}

#[test]
fn test_remove() {
    let mut list = TaskList::new();

    list.add(Task::new(1, "Test1".into()));
    assert_eq!(list.tasks.len(), 1);

    list.remove(1);
    assert_eq!(list.tasks.len(), 0);
}

#[test]
fn test_tasklist_new() {
    let list = TaskList::new();
    assert_eq!(list.tasks.len(), 0);
}

#[test]
fn test_tasklist_add() {
    let mut list = TaskList::new();
    let task = Task::new(1, "Test task".to_string());
    list.add(task);
    assert_eq!(list.tasks.len(), 1);
    assert_eq!(list.tasks[0].id, 1);
    assert_eq!(list.tasks[0].description, "Test task");
}

#[test]
fn test_tasklist_update_status_nonexistent() {
    let mut list = TaskList::new();
    let result = list.update_status(999, TaskStatus::Completed);
    assert!(result.is_err());
    assert_eq!(result.unwrap_err().message(), "Task with id 999 was not found");
}

#[test]
fn test_tasklist_update_description_nonexistent() {
    let mut list = TaskList::new();
    let result = list.update_description(999, "New description".to_string());
    assert!(result.is_err());
    assert_eq!(result.unwrap_err().message(), "Task with id 999 was not found");
}

#[test]
fn test_remove_twice_is_noop() {
    let mut list = TaskList::new();
    list.add(Task::new(1, "keep".to_string()));
    list.add(Task::new(2, "drop".to_string()));

    list.remove(2);
    assert_eq!(list.tasks.len(), 1);

    list.remove(2);
    assert_eq!(list.tasks.len(), 1);
    assert_eq!(list.tasks[0].id, 1);
    assert_eq!(list.tasks[0].description, "keep");
}

#[test]
fn test_remove_deletes_all_matching_ids() {
    let mut list = TaskList::new();
    list.add(Task::new(7, "first".to_string()));
    list.add(Task::new(3, "other".to_string()));
    list.add(Task::new(7, "second".to_string()));

    list.remove(7);
    assert_eq!(list.tasks.len(), 1);
    assert_eq!(list.tasks[0].id, 3);
}

#[test]
fn test_update_touches_only_first_match() {
    let mut list = TaskList::new();
    list.add(Task::new(5, "one".to_string()));
    list.add(Task::new(5, "two".to_string()));

    list.update_status(5, TaskStatus::Completed).unwrap();
    assert!(matches!(list.tasks[0].status, TaskStatus::Completed));
    assert!(matches!(list.tasks[1].status, TaskStatus::NotStarted));

    list.update_description(5, "renamed".to_string()).unwrap();
    assert_eq!(list.tasks[0].description, "renamed");
    assert_eq!(list.tasks[1].description, "two");
}

#[test]
fn test_failed_update_leaves_list_unchanged() {
    let mut list = TaskList::new();
    list.add(Task::new(1, "stable".to_string()));

    assert!(list.update_status(2, TaskStatus::Completed).is_err());
    assert!(list.update_description(2, "nope".to_string()).is_err());

    assert_eq!(list.tasks.len(), 1);
    assert_eq!(list.tasks[0].id, 1);
    assert_eq!(list.tasks[0].description, "stable");
    assert!(matches!(list.tasks[0].status, TaskStatus::NotStarted));
}
