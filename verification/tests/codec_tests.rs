use rudden::task::{DecodeError, Importance, Status, Task};

// Test 1: Successful parsing of a valid task line
#[test]
fn test_task_from_str_success() {
    let line = "1,Refactor the CLI module,pending,urgent";

    let task = Task::from_line(line).unwrap();

    assert_eq!(task.id, 1);
    assert_eq!(task.name, "Refactor the CLI module");
    assert_eq!(task.status, Status::Pending);
    assert_eq!(task.importance, Importance::Urgent);
}

// Test 2: Failure on parsing a malformed task line
#[test]
fn test_task_from_str_malformed() {
    let line = "1,Just one field";

    let result = Task::from_line(line);

    assert!(result.is_err());
}

// Test 3: Failure on parsing a task with an invalid status
#[test]
fn test_task_from_str_invalid_status() {
    let line = "2,New feature,in_progress,normal";

    let result = Task::from_line(line);

    assert!(result.is_err());
    assert_eq!(result.err().unwrap().message(), "Invalid Status");
}

// Test 15: Parse a task with commas in its name
#[test]
fn test_task_from_str_with_commas_in_name() {
    let line = "10,My task, with, commas,pending,normal";

    let task = Task::from_line(line).unwrap();

    assert_eq!(task.id, 10);
    assert_eq!(task.name, "My task, with, commas");
    assert_eq!(task.status, Status::Pending);
    assert_eq!(task.importance, Importance::Normal);
}

// Test 16: Failure on parsing a task with an invalid ID
#[test]
fn test_task_from_str_invalid_id() {
    let line = "not-a-number,A task,pending,normal";

    let result = Task::from_line(line);

    assert!(result.is_err());
}

// Test 22: Failure on parsing a task line with insufficient parts
#[test]
fn test_task_from_str_insufficient_parts() {
    let line = "1,missing_status_and_importance";

    let result = Task::from_line(line);

    assert!(result.is_err());
    assert_eq!(
        result.err().unwrap().message(),
        "Incorrect line format: couldn't split into 3 parts from right"
    );
}

#[test]
fn test_encode_simple_task() {
    let task = Task {
        id: 7,
        name: "fix: a thing".to_string(),
        status: Status::Finished,
        importance: Importance::Important,
    };
    assert_eq!(task.to_csv_line(), "7,fix: a thing,finished,important");
}

#[test]
fn test_round_trip_with_commas() {
    let task = Task {
        id: 42,
        name: "a,b,,c,".to_string(),
        status: Status::Pending,
        importance: Importance::Urgent,
    };
    let line = task.to_csv_line();
    assert_eq!(line, "42,a,b,,c,,pending,urgent");
    let back = Task::from_line(&line).unwrap();
    assert_eq!(back, task);
}

#[test]
fn test_round_trip_empty_name() {
    let task = Task {
        id: 0,
        name: String::new(),
        status: Status::Finished,
        importance: Importance::Normal,
    };
    let line = task.to_csv_line();
    assert_eq!(line, "0,,finished,normal");
    let back = Task::from_line(&line).unwrap();
    assert_eq!(back, task);
}

#[test]
fn test_decode_error_kinds() {
    assert_eq!(Task::from_line("").err().unwrap(), DecodeError::MalformedLine);
    assert_eq!(Task::from_line("nocomma").err().unwrap(), DecodeError::MalformedLine);
    // Two commas from the right, but nothing splits id from name.
    assert_eq!(Task::from_line("abc,pending,normal").err().unwrap(), DecodeError::MalformedLine);
    assert_eq!(Task::from_line("x9,a,pending,normal").err().unwrap(), DecodeError::InvalidId);
    assert_eq!(Task::from_line("1,a,done,normal").err().unwrap(), DecodeError::InvalidStatus);
    assert_eq!(Task::from_line("1,a,pending,high").err().unwrap(), DecodeError::InvalidImportance);
    assert_eq!(
        Task::from_line("1,a,pending,high").err().unwrap().message(),
        "Invalid Importance"
    );
    // The status field is checked before the importance field.
    assert_eq!(Task::from_line("1,a,done,high").err().unwrap(), DecodeError::InvalidStatus);
}

#[test]
fn test_decode_id_edges() {
    // A leading plus sign is accepted, as a decimal unsigned parse has it.
    let t = Task::from_line("+3,plus,pending,normal").unwrap();
    assert_eq!(t.id, 3);
    // The largest id fits; one past it does not.
    let big = Task::from_line("4294967295,edge,finished,urgent").unwrap();
    assert_eq!(big.id, u32::MAX);
    assert_eq!(
        Task::from_line("4294967296,too big,finished,urgent").err().unwrap(),
        DecodeError::InvalidId
    );
    // Leading zeros are plain digits.
    assert_eq!(Task::from_line("007,zeros,pending,normal").unwrap().id, 7);
    // An empty id field, or a bare sign, is rejected.
    assert_eq!(Task::from_line(",a,pending,normal").err().unwrap(), DecodeError::InvalidId);
    assert_eq!(Task::from_line("+,a,pending,normal").err().unwrap(), DecodeError::InvalidId);
}

#[test]
fn test_vocabulary_is_exact() {
    // The vocabularies are lowercase and unabbreviated; anything else fails.
    assert!(Task::from_line("1,a,Pending,normal").is_err());
    assert!(Task::from_line("1,a,pending,Normal").is_err());
    assert!(Task::from_line("1,a,pending ,normal").is_err());
    assert!(Task::from_line("1,a,pend,normal").is_err());
}
