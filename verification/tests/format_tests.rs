use todore::fmt::{Formatter, JsonFormatter, PlaintextFormatter, YamlFormatter};
use todore::list::TaskList;
use todore::task::{Task, TaskStatus};

#[test]
fn test_plaintext_formatter() {
    let mut list = TaskList::new();
    list.add(Task::new(1, "Task 1".to_string()));
    list.add(Task::new(2, "Task 2".to_string()));

    let formatter = PlaintextFormatter::new();
    let result = formatter.format(&list).unwrap();

    let lines: Vec<&str> = result.lines().collect();
    assert_eq!(lines.len(), 2);
    assert!(lines[0].contains("1: Task 1"));
    assert!(lines[1].contains("2: Task 2"));
}

#[test]
fn test_json_formatter() {
    let mut list = TaskList::new();
    list.add(Task::new(1, "Test task".to_string()));

    let formatter = JsonFormatter::new();
    let result = formatter.format(&list).unwrap();

    // Should be valid JSON
    let parsed: serde_json::Value = serde_json::from_str(&result).unwrap();
    assert_eq!(parsed["tasks"][0]["id"], 1);
    assert_eq!(parsed["tasks"][0]["description"], "Test task");
}

#[test]
fn test_yaml_formatter() {
    let mut list = TaskList::new();
    list.add(Task::new(1, "Test task".to_string()));

    let formatter = YamlFormatter::new();
    let result = formatter.format(&list).unwrap();

    // Should be valid YAML
    let parsed: serde_yaml::Value = serde_yaml::from_str(&result).unwrap();
    assert_eq!(parsed["tasks"][0]["id"].as_u64().unwrap(), 1);
    assert_eq!(
        parsed["tasks"][0]["description"].as_str().unwrap(),
        "Test task"
    );
}

#[test]
fn test_plaintext_export_exact() {
    let mut list = TaskList::new();
    list.add(Task::new(1, "Task 1".to_string()));
    list.add(Task::new(2, "Task 2".to_string()));
    list.update_status(2, TaskStatus::Completed).unwrap();

    let formatter = PlaintextFormatter::new();
    let result = list.export_to_string(&formatter).unwrap();
    assert_eq!(result, "1: Task 1\tNot Started\n2: Task 2\tCompleted");
}

#[test]
fn test_plaintext_export_empty() {
    let list = TaskList::new();
    let formatter = PlaintextFormatter::new();
    assert_eq!(list.export_to_string(&formatter).unwrap(), "");
}

#[test]
fn test_json_export_exact() {
    let mut list = TaskList::new();
    list.add(Task::new(1, "Task 1".to_string()));

    let formatter = JsonFormatter::new();
    let result = list.export_to_string(&formatter).unwrap();
    let expected = "{\n  \"tasks\": [\n    {\n      \"id\": 1,\n      \"description\": \"Task 1\",\n      \"status\": \"NotStarted\"\n    }\n  ]\n}";
    assert_eq!(result, expected);
}

#[test]
fn test_json_export_empty_exact() {
    let list = TaskList::new();
    let formatter = JsonFormatter::new();
    assert_eq!(
        list.export_to_string(&formatter).unwrap(),
        "{\n  \"tasks\": []\n}"
    );
}

#[test]
fn test_json_export_escapes_description() {
    let mut list = TaskList::new();
    list.add(Task::new(1, "say \"hi\"\\\n".to_string()));

    let formatter = JsonFormatter::new();
    let result = list.export_to_string(&formatter).unwrap();

    let parsed: serde_json::Value = serde_json::from_str(&result).unwrap();
    assert_eq!(parsed["tasks"][0]["description"], "say \"hi\"\\\n");
}

#[test]
fn test_yaml_export_exact() {
    let mut list = TaskList::new();
    list.add(Task::new(1, "Test task".to_string()));

    let formatter = YamlFormatter::new();
    let result = list.export_to_string(&formatter).unwrap();
    assert_eq!(
        result,
        "tasks:\n- id: 1\n  description: Test task\n  status: NotStarted\n"
    );
}

#[test]
fn test_yaml_export_empty_exact() {
    let list = TaskList::new();
    let formatter = YamlFormatter::new();
    assert_eq!(list.export_to_string(&formatter).unwrap(), "tasks: []\n");
}

#[test]
fn test_yaml_quotes_ambiguous_descriptions() {
    let mut list = TaskList::new();
    list.add(Task::new(1, "true".to_string()));
    list.add(Task::new(2, "a: b".to_string()));

    let formatter = YamlFormatter::new();
    let result = list.export_to_string(&formatter).unwrap();

    let parsed: serde_yaml::Value = serde_yaml::from_str(&result).unwrap();
    assert_eq!(parsed["tasks"][0]["description"].as_str().unwrap(), "true");
    assert_eq!(parsed["tasks"][1]["description"].as_str().unwrap(), "a: b");
}
