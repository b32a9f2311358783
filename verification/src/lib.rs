//! Rudden: the core of a small task tracker.
//!
//! Tasks are persisted as lines of comma-separated text
//! (`id,name,status,importance`). The name may itself contain commas, so
//! decoding splits from the right: the status and importance vocabularies
//! never contain a comma. Two write strategies exist side by side: a
//! read-modify-write list ([`list::ToDoList`]) that rewrites its whole
//! backing file, and an append-only fast path ([`persistence`]) that keeps
//! the next identifier in a separate metadata document.
//!
//! This crate holds only the persistence and reconciliation logic, on plain
//! values. Opening, reading and writing the backing files is left to the
//! caller.

pub mod cli;
pub mod commands;
pub mod digits;
pub mod list;
pub mod persistence;
pub mod task;
pub mod text;
