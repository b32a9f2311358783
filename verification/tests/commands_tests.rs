use rudden::cli::{AddArgs, Mode, RmArgs, UpdateArgs};
use rudden::commands;
use rudden::list::ToDoList;
use rudden::task::{Importance, Status};

// Test 1: Successfully add a task
#[test]
fn test_add_task_success() {
    let mut to_do_list = ToDoList::default();
    let args = AddArgs {
        message: "Test this function".to_string(),
        importance: Some("urgent".to_string()),
    };

    let result = commands::add_task(&mut to_do_list, &args);

    assert!(result.is_ok());
    assert_eq!(result.unwrap(), "Successfully added task with ID: 1");
    assert_eq!(to_do_list.tasks().len(), 1);
    let task = &to_do_list.tasks()[0];
    assert_eq!(task.name, "Test this function");
    assert_eq!(task.importance, Importance::Urgent);
}

// Test 2: Fail to add a task due to invalid importance
#[test]
fn test_add_task_invalid_importance() {
    let mut to_do_list = ToDoList::default();
    let args = AddArgs {
        message: "A task".to_string(),
        importance: Some("critical".to_string()),
    };

    let result = commands::add_task(&mut to_do_list, &args);

    assert!(result.is_err());
    assert_eq!(
        result.err().unwrap(),
        "'critical' is not a valid importance. Use 'normal', 'important', or 'urgent'."
    );
    assert!(to_do_list.is_empty());
}

// Test 3: Successfully update a task
#[test]
fn test_update_task_success() {
    let mut to_do_list = ToDoList::default();
    to_do_list.add_task("Initial Task".to_string(), Importance::Normal); // ID will be 1
    let args = UpdateArgs {
        id: 1,
        status: Some("finished".to_string()),
        importance: Some("urgent".to_string()),
    };

    let result = commands::update_task(&mut to_do_list, &args);

    assert!(result.is_ok());
    assert_eq!(result.unwrap(), "Successfully updated task with ID: 1");
    let task = &to_do_list.tasks()[0];
    assert_eq!(task.status, Status::Finished);
    assert_eq!(task.importance, Importance::Urgent);
}

// Test 4: Fail to update a non-existent task
#[test]
fn test_update_task_not_found() {
    let mut to_do_list = ToDoList::default();
    let args = UpdateArgs {
        id: 99,
        status: Some("pending".to_string()),
        importance: None,
    };

    let result = commands::update_task(&mut to_do_list, &args);

    assert!(result.is_err());
    assert_eq!(result.err().unwrap(), "Task with ID 99 not found.");
}

// Test 5: Successfully remove a task
#[test]
fn test_remove_task_success() {
    let mut to_do_list = ToDoList::default();
    to_do_list.add_task("To be deleted".to_string(), Importance::Normal); // ID will be 1
    let args = RmArgs { id: 1 };

    let result = commands::remove_task(&mut to_do_list, &args);

    assert!(result.is_ok());
    assert_eq!(result.unwrap(), "Successfully removed task with ID: 1");
    assert!(to_do_list.is_empty());
}

// Test 6: Fail to remove a non-existent task
#[test]
fn test_remove_task_not_found() {
    let mut to_do_list = ToDoList::default();
    let args = RmArgs { id: 99 };

    let result = commands::remove_task(&mut to_do_list, &args);

    assert!(result.is_err());
    assert_eq!(result.err().unwrap(), "Task with ID 99 not found.");
}

// Test 7: Show tasks when the list is empty
#[test]
fn test_show_tasks_empty() {
    let to_do_list = ToDoList::default();

    let result = commands::show_tasks(&to_do_list);

    assert!(result.is_ok());
    assert_eq!(result.unwrap(), "No tasks to show.");
}

// Test 8: Show tasks when the list has items
#[test]
fn test_show_tasks_with_items() {
    let mut to_do_list = ToDoList::default();
    to_do_list.add_task("First task".to_string(), Importance::Normal);
    to_do_list.add_task("Second task".to_string(), Importance::Urgent);

    let result = commands::show_tasks(&to_do_list);
    let expected_output = "There are 2 Tasks:\n- [id: 1] First task (Status: pending, Importance: normal)\n- [id: 2] Second task (Status: pending, Importance: urgent)";

    assert!(result.is_ok());
    let output = result.unwrap();
    // Normalize line endings for cross-platform compatibility
    let normalized_output = output.replace("\r\n", "\n");
    assert_eq!(normalized_output, expected_output.replace("\r\n", "\n"));
}

// Test 9: Fail to update a task due to invalid status
#[test]
fn test_update_task_invalid_status() {
    let mut to_do_list = ToDoList::default();
    to_do_list.add_task("Initial Task".to_string(), Importance::Normal);
    let args = UpdateArgs {
        id: 1,
        status: Some("in-progress".to_string()),
        importance: None,
    };

    let result = commands::update_task(&mut to_do_list, &args);

    assert!(result.is_err());
    assert_eq!(result.err().unwrap(), "Invalid status provided. Use 'pending' or 'finished'.");
}

// Test 10: Fail to update a task due to invalid importance
#[test]
fn test_update_task_invalid_importance() {
    let mut to_do_list = ToDoList::default();
    to_do_list.add_task("Initial Task".to_string(), Importance::Normal);
    let args = UpdateArgs {
        id: 1,
        status: None,
        importance: Some("low".to_string()),
    };

    let result = commands::update_task(&mut to_do_list, &args);

    assert!(result.is_err());
    assert_eq!(
        result.err().unwrap(),
        "Invalid importance provided. Use 'normal', 'important', or 'urgent'."
    );
}

// Test 11: check_tasks successfully updates a task
#[test]
fn test_check_tasks_updates_task() {
    let logs = "commit abc\nfeat: Implement the new parser";
    let mut to_do_list = ToDoList::default();
    to_do_list.add_task("feat: Implement the new parser".to_string(), Importance::Important);

    let result = commands::check_tasks(&mut to_do_list, Some(logs));

    assert_eq!(result, "Tasks updated successfully based on git logs.");
    assert_eq!(to_do_list.tasks()[0].status, Status::Finished);
}

// Test 12: check_tasks finds no tasks to update
#[test]
fn test_check_tasks_no_updates() {
    let logs = "commit def\nfix: A minor bug";
    let mut to_do_list = ToDoList::default();
    to_do_list.add_task("A completely different task".to_string(), Importance::Normal);

    let result = commands::check_tasks(&mut to_do_list, Some(logs));

    assert_eq!(result, "No tasks to update from git logs.");
    assert_eq!(to_do_list.tasks()[0].status, Status::Pending);
}

// Test 13: check_tasks handles an absent log gracefully
#[test]
fn test_check_tasks_no_repo() {
    let mut to_do_list = ToDoList::default();
    to_do_list.add_task("Some task".to_string(), Importance::Normal);

    let result = commands::check_tasks(&mut to_do_list, None);

    assert_eq!(result, "No git repository found, can't check logs.");
    assert_eq!(to_do_list.tasks()[0].status, Status::Pending);
}

#[test]
fn test_add_task_default_importance_is_normal() {
    let mut to_do_list = ToDoList::default();
    let args = AddArgs { message: "No importance given".to_string(), importance: None };

    let result = commands::add_task(&mut to_do_list, &args);

    assert!(result.is_ok());
    assert_eq!(to_do_list.tasks()[0].importance, Importance::Normal);
    assert_eq!(to_do_list.tasks()[0].status, Status::Pending);
}

#[test]
fn test_should_save_rules() {
    // Listing never persists.
    assert!(!commands::should_save(&Mode::Show, "There are 2 Tasks:"));
    // A reconciliation that changed nothing has nothing to persist.
    assert!(!commands::should_save(&Mode::Check, "No tasks to update from git logs."));
    // Only the "No tasks" prefix suppresses the save after a check.
    assert!(commands::should_save(&Mode::Check, "No git repository found, can't check logs."));
    assert!(commands::should_save(&Mode::Check, "Tasks updated successfully based on git logs."));
    // Mutating commands persist.
    assert!(commands::should_save(
        &Mode::Add(AddArgs { message: "m".to_string(), importance: None }),
        "Successfully added task with ID: 1"
    ));
    assert!(commands::should_save(&Mode::Rm(RmArgs { id: 1 }), "Successfully removed task with ID: 1"));
    assert!(commands::should_save(
        &Mode::Update(UpdateArgs { id: 1, status: None, importance: None }),
        "Successfully updated task with ID: 1"
    ));
}
