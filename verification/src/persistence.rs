//! The append-only fast store.
//!
//! Adding a task here costs one appended line, however large the data
//! file already is: nothing reads or rewrites what is there. The next
//! identifier comes from a separate metadata document holding a single
//! counter, `last_id`, which is read, bumped and handed back to be
//! persisted on every draw -- so an id is never repeated, even across a
//! process restart, and even when the counter and the surviving lines
//! have drifted apart.
//!
//! The caller does the file work: it hands in the metadata document's
//! current text (or `None` when the document does not exist yet), writes
//! the returned text back, and appends the returned line to the data
//! file.

use vstd::prelude::*;
use vstd::string::StringExecFns;
use crate::task::{encode_spec, Importance, Status, Task, TaskView};

verus! {

/// The text serde_json renders for the one-field object `{key: value}`.
pub uninterp spec fn json_object_of(key: Seq<char>, value: u64) -> Seq<char>;

/// The unsigned number serde_json reads under `key` from a JSON object,
/// if the text parses and the field holds one.
pub uninterp spec fn parsed_u64_field(s: Seq<char>, key: Seq<char>) -> Option<u64>;

/// Relies on serde_json::to_string_pretty: renders the one-field object
/// `{key: value}`. The output depends on the arguments alone, and
/// serde_json::from_str reads the same number back under the same key (a
/// JSON round trip). Serializing a string-keyed object cannot fail, so
/// the fallback arm is never taken.
#[verifier::external_body]
fn render_json_u64_field(key: &str, value: u64) -> (r: String)
    ensures
        r@ == json_object_of(key@, value),
        parsed_u64_field(r@, key@) == Some(value),
{
    let mut obj = serde_json::Map::new();
    obj.insert(key.to_string(), serde_json::Value::from(value));
    match serde_json::to_string_pretty(&serde_json::Value::Object(obj)) {
        Ok(s) => s,
        Err(_) => String::new(),
    }
}

/// Relies on serde_json::from_str, serde_json::Value::get and
/// serde_json::Value::as_u64: reads the field `key` of a JSON object as
/// an unsigned 64-bit number; `None` when the text is not JSON, the
/// field is absent, or its value is not such a number. The result
/// depends on the text alone.
#[verifier::external_body]
fn parse_json_u64_field(s: &str, key: &str) -> (r: Option<u64>)
    ensures
        r == parsed_u64_field(s@, key@),
{
    let v: serde_json::Value = match serde_json::from_str(s) {
        Ok(v) => v,
        Err(_) => return None,
    };
    match v.get(key) {
        Some(x) => x.as_u64(),
        None => None,
    }
}

/// The metadata document recording that `last_id` ids have been drawn.
pub open spec fn meta_content_of(last_id: u64) -> Seq<char> {
    json_object_of("last_id"@, last_id)
}

/// The counter a metadata document denotes, if any.
pub open spec fn meta_last_id(s: Seq<char>) -> Option<u64> {
    parsed_u64_field(s, "last_id"@)
}

/// Renders the metadata document recording a counter value.
pub fn render_metadata(last_id: u32) -> (r: String)
    ensures
        r@ == meta_content_of(last_id as u64),
        meta_last_id(r@) == Some(last_id as u64),
{
    render_json_u64_field("last_id", last_id as u64)
}

/// Why the fast store refused an operation.
#[derive(Clone, Copy, PartialEq, Eq, Structural, Debug)]
pub enum MetaError {
    /// The metadata document exists but does not denote a counter that
    /// fits in an id.
    Invalid,
    /// Every representable id has been drawn.
    IdExhausted,
}

pub open spec fn view_opt(m: Option<&str>) -> Option<Seq<char>> {
    match m {
        Some(s) => Some(s@),
        None => None,
    }
}

/// What reading the metadata yields: 0 for an absent document, the
/// counter when the document denotes one that fits, and an error
/// otherwise.
pub open spec fn read_meta_spec(m: Option<Seq<char>>) -> Result<u32, MetaError> {
    match m {
        None => Ok(0),
        Some(s) => match meta_last_id(s) {
            Some(v) => if v <= u32::MAX as u64 {
                Ok(v as u32)
            } else {
                Err(MetaError::Invalid)
            },
            None => Err(MetaError::Invalid),
        },
    }
}

/// Reads the counter from the metadata document's text; an absent
/// document counts as zero, as on first use.
pub fn read_metadata(meta_content: Option<&str>) -> (r: Result<u32, MetaError>)
    ensures
        r == read_meta_spec(view_opt(meta_content)),
{
    match meta_content {
        None => Ok(0),
        Some(s) => match parse_json_u64_field(s, "last_id") {
            Some(v) => if v <= u32::MAX as u64 {
                Ok(v as u32)
            } else {
                Err(MetaError::Invalid)
            },
            None => Err(MetaError::Invalid),
        },
    }
}

/// Draws the next id: one more than the persisted counter. Returns the
/// id together with the new metadata text, which the caller must persist
/// before acting on the id -- then no later call repeats a value, even
/// after a restart, and whatever still stands in the data file.
pub fn get_next_id(meta_content: Option<&str>) -> (r: Result<(u32, String), MetaError>)
    ensures
        match read_meta_spec(view_opt(meta_content)) {
            Ok(v) => if v < u32::MAX {
                &&& r is Ok
                &&& r->Ok_0.0 == v + 1
                &&& r->Ok_0.1@ == meta_content_of((v + 1) as u64)
                &&& meta_last_id(r->Ok_0.1@) == Some((v + 1) as u64)
            } else {
                r == Err::<(u32, String), MetaError>(MetaError::IdExhausted)
            },
            Err(e) => r == Err::<(u32, String), MetaError>(e),
        },
{
    let cur = match read_metadata(meta_content) {
        Ok(v) => v,
        Err(e) => {
            return Err(e);
        },
    };
    if cur == u32::MAX {
        return Err(MetaError::IdExhausted);
    }
    let next = cur + 1;
    let m = render_json_u64_field("last_id", next as u64);
    Ok((next, m))
}

/// What one append-only add produces.
pub struct FastAdd {
    /// The id drawn for the new task.
    pub id: u32,
    /// The new metadata text to persist.
    pub meta: String,
    /// The encoded task, to append to the data file as one line.
    pub line: String,
}

/// The append-only add: draws the next id and encodes one pending task.
/// The outcome is a single line for the caller to append; no part of it
/// depends on what the data file already holds, so prior lines are never
/// read or rewritten.
pub fn add_task_fast(meta_content: Option<&str>, name: &str, importance: Importance) -> (r: Result<
    FastAdd,
    MetaError,
>)
    ensures
        match read_meta_spec(view_opt(meta_content)) {
            Ok(v) => if v < u32::MAX {
                &&& r is Ok
                &&& r->Ok_0.id == v + 1
                &&& r->Ok_0.meta@ == meta_content_of((v + 1) as u64)
                &&& meta_last_id(r->Ok_0.meta@) == Some((v + 1) as u64)
                &&& r->Ok_0.line@ == encode_spec(
                    TaskView {
                        id: (v + 1) as u32,
                        name: name@,
                        status: Status::Pending,
                        importance,
                    },
                )
            } else {
                r == Err::<FastAdd, MetaError>(MetaError::IdExhausted)
            },
            Err(e) => r == Err::<FastAdd, MetaError>(e),
        },
{
    let (id, meta) = match get_next_id(meta_content) {
        Ok(p) => p,
        Err(e) => {
            return Err(e);
        },
    };
    let task = Task { id, name: String::from_str(name), status: Status::Pending, importance };
    let line = task.to_csv_line();
    Ok(FastAdd { id, meta, line })
}

} // verus!
