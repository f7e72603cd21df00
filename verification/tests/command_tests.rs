use todore::command::{Command, Format, TaskField};

#[test]
fn test_command_add() {
    let cmd = Command::from_str("add Buy groceries").unwrap();
    match cmd {
        Command::Add { val } => assert_eq!(val, "Buy"),
        _ => panic!("Expected Add command"),
    }

    let cmd_short = Command::from_str("a Buy groceries").unwrap();
    match cmd_short {
        Command::Add { val } => assert_eq!(val, "Buy"),
        _ => panic!("Expected Add command"),
    }
}

#[test]
fn test_command_add_insufficient_args() {
    let result = Command::from_str("add");
    assert!(result.is_err());
    assert_eq!(
        result.unwrap_err().message(),
        "Invalid arguments for add."
    );
}

#[test]
fn test_command_remove() {
    let cmd = Command::from_str("remove 5").unwrap();
    match cmd {
        Command::Remove { id } => assert_eq!(id, 5),
        _ => panic!("Expected Remove command"),
    }

    let cmd_short = Command::from_str("r 10").unwrap();
    match cmd_short {
        Command::Remove { id } => assert_eq!(id, 10),
        _ => panic!("Expected Remove command"),
    }
}

#[test]
fn test_command_remove_insufficient_args() {
    let result = Command::from_str("remove");
    assert!(result.is_err());
    assert_eq!(
        result.unwrap_err().message(),
        "Invalid arguments for remove."
    );
}

#[test]
fn test_command_remove_invalid_id() {
    let result = Command::from_str("remove abc");
    assert!(result.is_err());
}

#[test]
fn test_command_update_status() {
    let cmd = Command::from_str("update 1 status completed").unwrap();
    match cmd {
        Command::Update { id, new_val, field } => {
            assert_eq!(id, 1);
            assert_eq!(new_val, "completed");
            assert!(matches!(field, TaskField::Status));
        }
        _ => panic!("Expected Update command"),
    }

    let cmd_short = Command::from_str("u 2 s ip").unwrap();
    match cmd_short {
        Command::Update { id, new_val, field } => {
            assert_eq!(id, 2);
            assert_eq!(new_val, "ip");
            assert!(matches!(field, TaskField::Status));
        }
        _ => panic!("Expected Update command"),
    }
}

#[test]
fn test_command_update_description() {
    let cmd = Command::from_str("update 1 description New description").unwrap();
    match cmd {
        Command::Update { id, new_val, field } => {
            assert_eq!(id, 1);
            assert_eq!(new_val, "New");
            assert!(matches!(field, TaskField::Description));
        }
        _ => panic!("Expected Update command"),
    }

    let cmd_short = Command::from_str("u 2 d Short desc").unwrap();
    match cmd_short {
        Command::Update { id, new_val, field } => {
            assert_eq!(id, 2);
            assert_eq!(new_val, "Short");
            assert!(matches!(field, TaskField::Description));
        }
        _ => panic!("Expected Update command"),
    }
}

#[test]
fn test_command_update_insufficient_args() {
    let result = Command::from_str("update 1 status");
    assert!(result.is_err());
    assert_eq!(
        result.unwrap_err().message(),
        "Invalid arguments for update."
    );
}

#[test]
fn test_command_update_invalid_field() {
    let result = Command::from_str("update 1 invalid completed");
    assert!(result.is_err());
}

#[test]
fn test_command_update_field_case_insensitive() {
    let cmd = Command::from_str("update 1 STATUS completed").unwrap();
    match cmd {
        Command::Update { field, .. } => assert!(matches!(field, TaskField::Status)),
        _ => panic!("Expected Update command"),
    }
}

#[test]
fn test_command_export() {
    let cmd = Command::from_str("export json output.json").unwrap();
    match cmd {
        Command::Export { format, out_file } => {
            assert!(matches!(format, Format::Json));
            assert_eq!(out_file.as_deref(), Some("output.json"));
        }
        _ => panic!("Expected Export command"),
    }

    let cmd_short = Command::from_str("e y output.yaml").unwrap();
    match cmd_short {
        Command::Export { format, out_file } => {
            assert!(matches!(format, Format::Yaml));
            assert_eq!(out_file.as_deref(), Some("output.yaml"));
        }
        _ => panic!("Expected Export command"),
    }

    let cmd_plaintext = Command::from_str("e p output.txt").unwrap();
    match cmd_plaintext {
        Command::Export { format, out_file } => {
            assert!(matches!(format, Format::Plaintext));
            assert_eq!(out_file.as_deref(), Some("output.txt"));
        }
        _ => panic!("Expected Export command"),
    }
}

#[test]
fn test_command_export_without_destination() {
    let cmd = Command::from_str("export json").unwrap();
    match cmd {
        Command::Export { format, out_file } => {
            assert!(matches!(format, Format::Json));
            assert!(out_file.is_none());
        }
        _ => panic!("Expected Export command"),
    }
}

#[test]
fn test_command_export_insufficient_args() {
    let result = Command::from_str("export");
    assert!(result.is_err());
    assert_eq!(
        result.unwrap_err().message(),
        "Invalid arguments for export."
    );
}

#[test]
fn test_command_export_invalid_format() {
    let result = Command::from_str("export invalid output.txt");
    assert!(result.is_err());
}

#[test]
fn test_command_quit() {
    let cmd = Command::from_str("quit").unwrap();
    assert!(matches!(cmd, Command::Quit));

    let cmd_short = Command::from_str("q").unwrap();
    assert!(matches!(cmd_short, Command::Quit));
}

#[test]
fn test_command_invalid() {
    let result = Command::from_str("invalid command");
    assert!(result.is_err());
    assert_eq!(result.unwrap_err().message(), "Invalid argument.");
}

#[test]
fn test_command_remove_id_bounds() {
    let cmd = Command::from_str("remove 4294967295").unwrap();
    match cmd {
        Command::Remove { id } => assert_eq!(id, 4294967295),
        _ => panic!("Expected Remove command"),
    }
    assert!(Command::from_str("remove 4294967296").is_err());
    assert!(Command::from_str("remove +5").is_err());
}

#[test]
fn test_format_fromstr_valid() {
    assert!(matches!(Format::from_str("json"), Ok(Format::Json)));
    assert!(matches!(Format::from_str("j"), Ok(Format::Json)));
    assert!(matches!(Format::from_str("yaml"), Ok(Format::Yaml)));
    assert!(matches!(Format::from_str("y"), Ok(Format::Yaml)));
    assert!(matches!(
        Format::from_str("plaintext"),
        Ok(Format::Plaintext)
    ));
    assert!(matches!(Format::from_str("p"), Ok(Format::Plaintext)));
}

#[test]
fn test_format_fromstr_invalid() {
    assert!(Format::from_str("invalid").is_err());
    assert!(Format::from_str("").is_err());
    assert!(Format::from_str("txt").is_err());
}

#[test]
fn test_taskfield_fromstr_valid() {
    assert!(matches!(
        TaskField::from_str("description"),
        Ok(TaskField::Description)
    ));
    assert!(matches!(
        TaskField::from_str("d"),
        Ok(TaskField::Description)
    ));
    assert!(matches!(
        TaskField::from_str("status"),
        Ok(TaskField::Status)
    ));
    assert!(matches!(TaskField::from_str("s"), Ok(TaskField::Status)));
}

#[test]
fn test_taskfield_fromstr_invalid() {
    assert!(TaskField::from_str("invalid").is_err());
    assert!(TaskField::from_str("").is_err());
    assert!(TaskField::from_str("name").is_err());
}

#[test]
fn test_command_add_double_space_captures_empty_token() {
    // splitting on single spaces, two spaces in a row yield an empty token,
    // which becomes the captured description
    let cmd = Command::from_str("add  Buy").unwrap();
    match cmd {
        Command::Add { val } => assert_eq!(val, ""),
        _ => panic!("Expected Add command"),
    }
}
