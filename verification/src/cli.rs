//! The typed operations a caller can ask for, with their arguments.
//!
//! Turning command-line text into these values is the caller's business;
//! the command layer in [`crate::commands`] consumes them already parsed.

use vstd::prelude::*;

verus! {

/// Arguments of the add operation.
#[derive(Debug)]
pub struct AddArgs {
    /// The name of the new task.
    pub message: String,
    /// The importance keyword, or `None` for the default (`normal`).
    pub importance: Option<String>,
}

/// Arguments of the update operation.
#[derive(Debug)]
pub struct UpdateArgs {
    /// Which task to touch.
    pub id: u32,
    /// The new status keyword, or `None` to leave the status alone.
    pub status: Option<String>,
    /// The new importance keyword, or `None` to leave it alone.
    pub importance: Option<String>,
}

/// Arguments of the remove operation.
#[derive(Debug)]
pub struct RmArgs {
    /// Which task to delete.
    pub id: u32,
}

/// One requested operation.
#[derive(Debug)]
pub enum Mode {
    /// Reconcile pending tasks against the latest log text.
    Check,
    /// Add a task.
    Add(AddArgs),
    /// Update a task's status or importance.
    Update(UpdateArgs),
    /// Remove a task.
    Rm(RmArgs),
    /// List all tasks.
    Show,
}

/// A whole parsed invocation.
#[derive(Debug)]
pub struct Cli {
    pub mode: Mode,
}

} // verus!
