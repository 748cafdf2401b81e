use vexide_panic::message::{compose_message, FaultReport, SourceLocation, TaskIdentity};

fn report(description: &str) -> FaultReport {
    FaultReport { location: None, description: description.to_string() }
}

#[test]
fn message_names_the_task() {
    let task = TaskIdentity { name: Some("main".to_string()) };
    assert_eq!(
        compose_message(&report("index out of bounds"), Some(&task)),
        "task 'main' index out of bounds"
    );
}

#[test]
fn failed_lookup_is_reported_as_unknown_task() {
    assert_eq!(
        compose_message(&report("index out of bounds"), None),
        "task '<unknown>' index out of bounds"
    );
}

#[test]
fn task_without_a_name_is_reported_as_unknown_task() {
    let task = TaskIdentity { name: None };
    assert_eq!(
        compose_message(&report("explicit panic"), Some(&task)),
        "task '<unknown>' explicit panic"
    );
}

#[test]
fn description_is_taken_as_it_stands() {
    let task = TaskIdentity { name: Some("User Initialization (PROS)".to_string()) };
    let fault = FaultReport {
        location: Some(SourceLocation { file: "src/lib.rs".to_string(), line: 22, column: 1 }),
        description: "panicked at src/lib.rs:22:1:\npanic message here".to_string(),
    };
    assert_eq!(
        compose_message(&fault, Some(&task)),
        "task 'User Initialization (PROS)' panicked at src/lib.rs:22:1:\npanic message here"
    );
    assert_eq!(compose_message(&report(""), Some(&TaskIdentity { name: Some(String::new()) })), "task '' ");
}
