//! The command layer: each operation takes its typed arguments, mutates
//! the collection, and reports a message. A keyword outside its closed
//! vocabulary aborts the operation before anything is touched.

use vstd::prelude::*;
use vstd::string::StrSliceExecFns;
use vstd::string::StringExecFns;
use crate::cli::{AddArgs, Mode, RmArgs, UpdateArgs};
use crate::digits::{dec_str_of, u32_to_string, u64_to_string};
use crate::list::{
    any_reconciled, apply_update, find_task_index, has_task, lemma_without_id_absent, max_id_of,
    next_id_of, reconciled_all, without_id, ToDoList,
};
use crate::task::{
    importance_word, parse_importance, parse_importance_spec, parse_status, parse_status_spec,
    status_word, Status, TaskView,
};
use crate::text::{starts_with, starts_with_seq};

verus! {

/// The importance keyword an add request denotes: the given one, or
/// `normal` when none was given.
pub open spec fn effective_importance(args: &AddArgs) -> Seq<char> {
    match args.importance {
        Some(s) => s@,
        None => "normal"@,
    }
}

pub open spec fn added_message(id: u32) -> Seq<char> {
    "Successfully added task with ID: "@ + dec_str_of(id as nat)
}

pub open spec fn updated_message(id: u32) -> Seq<char> {
    "Successfully updated task with ID: "@ + dec_str_of(id as nat)
}

pub open spec fn removed_message(id: u32) -> Seq<char> {
    "Successfully removed task with ID: "@ + dec_str_of(id as nat)
}

pub open spec fn not_found_message(id: u32) -> Seq<char> {
    "Task with ID "@ + dec_str_of(id as nat) + " not found."@
}

pub open spec fn invalid_importance_message(w: Seq<char>) -> Seq<char> {
    "'"@ + w + "' is not a valid importance. Use 'normal', 'important', or 'urgent'."@
}

/// Adds a new pending task named by `args.message`, under the next free
/// id. Fails, touching nothing, exactly when the importance keyword is
/// outside its vocabulary.
pub fn add_task(to_do_list: &mut ToDoList, args: &AddArgs) -> (r: Result<String, String>)
    requires
        max_id_of(old(to_do_list)@) < u32::MAX,
    ensures
        match r {
            Ok(m) => {
                &&& parse_importance_spec(effective_importance(args)) is Some
                &&& final(to_do_list)@ == old(to_do_list)@.push(
                    TaskView {
                        id: next_id_of(old(to_do_list)@) as u32,
                        name: args.message@,
                        status: Status::Pending,
                        importance: parse_importance_spec(effective_importance(args))->Some_0,
                    },
                )
                &&& m@ == added_message(next_id_of(old(to_do_list)@) as u32)
                &&& max_id_of(final(to_do_list)@) == next_id_of(old(to_do_list)@)
            },
            Err(m) => {
                &&& parse_importance_spec(effective_importance(args)) is None
                &&& final(to_do_list)@ == old(to_do_list)@
                &&& m@ == invalid_importance_message(effective_importance(args))
            },
        },
{
    let importance_str: &str = match &args.importance {
        Some(s) => s.as_str(),
        None => "normal",
    };
    let importance = match parse_importance(importance_str) {
        Some(im) => im,
        None => {
            let mut m = String::from_str("'");
            m.append(importance_str);
            m.append("' is not a valid importance. Use 'normal', 'important', or 'urgent'.");
            proof {
                assert(m@ =~= invalid_importance_message(effective_importance(args)));
            }
            return Err(m);
        },
    };
    let new_id = to_do_list.add_task(args.message.clone(), importance);
    let mut m = String::from_str("Successfully added task with ID: ");
    let digits = u32_to_string(new_id);
    m.append(digits.as_str());
    proof {
        assert(m@ =~= added_message(new_id));
    }
    Ok(m)
}

/// Whether the status keyword of an update request is acceptable: either
/// absent or inside the vocabulary.
pub open spec fn status_arg_ok(args: &UpdateArgs) -> bool {
    match args.status {
        Some(s) => parse_status_spec(s@) is Some,
        None => true,
    }
}

/// The status an update request carries, if any.
pub open spec fn status_arg_value(args: &UpdateArgs) -> Option<Status> {
    match args.status {
        Some(s) => parse_status_spec(s@),
        None => None,
    }
}

pub open spec fn importance_arg_ok(args: &UpdateArgs) -> bool {
    match args.importance {
        Some(s) => parse_importance_spec(s@) is Some,
        None => true,
    }
}

pub open spec fn importance_arg_value(args: &UpdateArgs) -> Option<crate::task::Importance> {
    match args.importance {
        Some(s) => parse_importance_spec(s@),
        None => None,
    }
}

/// Updates the task with `args.id`, overwriting only the fields whose
/// keyword is present. The status keyword is checked first, then the
/// importance; a bad keyword or a missing task aborts the operation with
/// nothing touched.
pub fn update_task(to_do_list: &mut ToDoList, args: &UpdateArgs) -> (r: Result<String, String>)
    ensures
        match r {
            Ok(m) => {
                &&& status_arg_ok(args)
                &&& importance_arg_ok(args)
                &&& has_task(old(to_do_list)@, args.id)
                &&& final(to_do_list)@ == old(to_do_list)@.update(
                    find_task_index(old(to_do_list)@, args.id),
                    apply_update(
                        old(to_do_list)@[find_task_index(old(to_do_list)@, args.id)],
                        status_arg_value(args),
                        importance_arg_value(args),
                    ),
                )
                &&& m@ == updated_message(args.id)
            },
            Err(m) => {
                &&& final(to_do_list)@ == old(to_do_list)@
                &&& if !status_arg_ok(args) {
                    m@ == "Invalid status provided. Use 'pending' or 'finished'."@
                } else if !importance_arg_ok(args) {
                    m@ == "Invalid importance provided. Use 'normal', 'important', or 'urgent'."@
                } else {
                    !has_task(old(to_do_list)@, args.id) && m@ == not_found_message(args.id)
                }
            },
        },
{
    let status: Option<Status> = match &args.status {
        Some(s) => match parse_status(s.as_str()) {
            Some(st) => Some(st),
            None => {
                return Err(
                    String::from_str("Invalid status provided. Use 'pending' or 'finished'."),
                );
            },
        },
        None => None,
    };
    let importance: Option<crate::task::Importance> = match &args.importance {
        Some(s) => match parse_importance(s.as_str()) {
            Some(im) => Some(im),
            None => {
                return Err(
                    String::from_str(
                        "Invalid importance provided. Use 'normal', 'important', or 'urgent'.",
                    ),
                );
            },
        },
        None => None,
    };
    if to_do_list.update_task(args.id, status, importance) {
        let mut m = String::from_str("Successfully updated task with ID: ");
        let digits = u32_to_string(args.id);
        m.append(digits.as_str());
        proof {
            assert(m@ =~= updated_message(args.id));
        }
        Ok(m)
    } else {
        let mut m = String::from_str("Task with ID ");
        let digits = u32_to_string(args.id);
        m.append(digits.as_str());
        m.append(" not found.");
        proof {
            assert(m@ =~= not_found_message(args.id));
        }
        Err(m)
    }
}

/// Removes the task with `args.id`; reports a not-found error, touching
/// nothing, when no task carries that id.
pub fn remove_task(to_do_list: &mut ToDoList, args: &RmArgs) -> (r: Result<String, String>)
    ensures
        final(to_do_list)@ == without_id(old(to_do_list)@, args.id),
        match r {
            Ok(m) => has_task(old(to_do_list)@, args.id) && m@ == removed_message(args.id),
            Err(m) => {
                &&& !has_task(old(to_do_list)@, args.id)
                &&& final(to_do_list)@ == old(to_do_list)@
                &&& m@ == not_found_message(args.id)
            },
        },
{
    if to_do_list.remove_task(args.id) {
        let mut m = String::from_str("Successfully removed task with ID: ");
        let digits = u32_to_string(args.id);
        m.append(digits.as_str());
        proof {
            assert(m@ =~= removed_message(args.id));
        }
        Ok(m)
    } else {
        proof {
            lemma_without_id_absent(old(to_do_list)@, args.id);
        }
        let mut m = String::from_str("Task with ID ");
        let digits = u32_to_string(args.id);
        m.append(digits.as_str());
        m.append(" not found.");
        proof {
            assert(m@ =~= not_found_message(args.id));
        }
        Err(m)
    }
}

/// The display line of one task.
pub open spec fn task_display_line(t: TaskView) -> Seq<char> {
    "- [id: "@ + dec_str_of(t.id as nat) + "] "@ + t.name + " (Status: "@ + status_word(t.status)
        + ", Importance: "@ + importance_word(t.importance) + ")"@
}

/// The display lines of a collection, each preceded by a line break.
pub open spec fn show_lines(s: Seq<TaskView>) -> Seq<char>
    decreases s.len(),
{
    if s.len() == 0 {
        Seq::empty()
    } else {
        show_lines(s.drop_last()) + seq!['\n'] + task_display_line(s.last())
    }
}

/// What listing a collection prints: a count header and one line per
/// task, or a fixed sentence when there is nothing to show.
pub open spec fn show_message(s: Seq<TaskView>) -> Seq<char> {
    if s.len() == 0 {
        "No tasks to show."@
    } else {
        "There are "@ + dec_str_of(s.len()) + " Tasks:"@ + show_lines(s)
    }
}

/// Renders the whole collection for display. Read-only.
#[verifier::rlimit(100)]
pub fn show_tasks(to_do_list: &ToDoList) -> (r: Result<String, String>)
    ensures
        r is Ok,
        r->Ok_0@ == show_message(to_do_list@),
{
    if to_do_list.is_empty() {
        return Ok(String::from_str("No tasks to show."));
    }
    let n = to_do_list.tasks().len();
    let mut out = String::from_str("There are ");
    let count = u64_to_string(n as u64);
    out.append(count.as_str());
    out.append(" Tasks:");
    let ghost header = out@;
    proof {
        assert(header =~= "There are "@ + dec_str_of(to_do_list@.len()) + " Tasks:"@);
    }
    let mut i: usize = 0;
    while i < n
        invariant
            i <= n,
            n == to_do_list@.len(),
            header == "There are "@ + dec_str_of(to_do_list@.len()) + " Tasks:"@,
            out@ == header + show_lines(to_do_list@.subrange(0, i as int)),
        decreases n - i,
    {
        let t = &to_do_list.tasks()[i];
        let ghost pre = to_do_list@.subrange(0, i as int);
        let ghost ext = to_do_list@.subrange(0, i as int + 1);
        out.append("\n");
        out.append("- [id: ");
        let digits = u32_to_string(t.id);
        out.append(digits.as_str());
        out.append("] ");
        out.append(t.name.as_str());
        out.append(" (Status: ");
        out.append(crate::task::status_label(t.status));
        out.append(", Importance: ");
        out.append(crate::task::importance_label(t.importance));
        out.append(")");
        proof {
            reveal_strlit("\n");
            assert(ext.drop_last() =~= pre);
            assert(ext.last() == to_do_list@[i as int]);
            assert(t@ == to_do_list@[i as int]);
            assert(out@ =~= header + show_lines(ext));
        }
        i = i + 1;
    }
    proof {
        assert(to_do_list@.subrange(0, n as int) =~= to_do_list@);
    }
    Ok(out)
}

/// Reconciles pending tasks against log text the caller obtained, and
/// says what happened. `None` stands for an absent log (no repository
/// found); the collection is then left untouched.
pub fn check_tasks(to_do_list: &mut ToDoList, logs_content: Option<&str>) -> (r: String)
    ensures
        match logs_content {
            None => final(to_do_list)@ == old(to_do_list)@ && r@
                == "No git repository found, can't check logs."@,
            Some(lc) => final(to_do_list)@ == reconciled_all(old(to_do_list)@, lc@) && r@ == (
            if any_reconciled(old(to_do_list)@, lc@) {
                "Tasks updated successfully based on git logs."@
            } else {
                "No tasks to update from git logs."@
            }),
        },
{
    let lc = match logs_content {
        Some(lc) => lc,
        None => {
            return String::from_str("No git repository found, can't check logs.");
        },
    };
    if to_do_list.update_statuses_from_logs(lc) {
        String::from_str("Tasks updated successfully based on git logs.")
    } else {
        String::from_str("No tasks to update from git logs.")
    }
}

/// Whether the collection must be written back after a command: listing
/// never needs a save, and a reconciliation that found nothing to update
/// has nothing to persist either.
pub open spec fn should_save_spec(mode: &Mode, message: Seq<char>) -> bool {
    match *mode {
        Mode::Show => false,
        Mode::Check => !starts_with_seq(message, "No tasks"@),
        _ => true,
    }
}

pub fn should_save(mode: &Mode, message: &str) -> (r: bool)
    ensures
        r == should_save_spec(mode, message@),
{
    match mode {
        Mode::Show => false,
        Mode::Check => !starts_with(message, "No tasks"),
        Mode::Add(_) => true,
        Mode::Update(_) => true,
        Mode::Rm(_) => true,
    }
}

} // verus!
