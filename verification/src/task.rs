//! Tasks and the line codec.
//!
//! A task is rendered as one line `id,name,status,importance`. The status
//! and importance vocabularies are closed, lowercase and comma-free, so a
//! decoder can split from the right and keep commas inside the name
//! verbatim.

use vstd::prelude::*;
use vstd::string::StringExecFns;
use vstd::string::StrSliceExecFns;
use crate::digits::{
    dec_str_of, is_digit, lemma_dec_str_of_valid, lemma_dec_value_nonneg, parse_u32, u32_str_value,
    u32_to_string, valid_u32_str,
};
use crate::text::{
    find_char, find_first_in, find_last_in, lemma_find_first_at, lemma_find_last_at, rfind_char,
    str_eq,
};

verus! {

/// Completion state of a task. `Finished` is terminal.
#[derive(Clone, Copy, PartialEq, Eq, Structural, Debug)]
pub enum Status {
    Pending,
    Finished,
}

/// How urgent a task is.
#[derive(Clone, Copy, PartialEq, Eq, Structural, Debug)]
pub enum Importance {
    Normal,
    Important,
    Urgent,
}

/// The rendering of a status in the line format.
pub open spec fn status_word(st: Status) -> Seq<char> {
    match st {
        Status::Pending => "pending"@,
        Status::Finished => "finished"@,
    }
}

/// The rendering of an importance in the line format.
pub open spec fn importance_word(im: Importance) -> Seq<char> {
    match im {
        Importance::Normal => "normal"@,
        Importance::Important => "important"@,
        Importance::Urgent => "urgent"@,
    }
}

/// The status denoted by `s`, if any.
pub open spec fn parse_status_spec(s: Seq<char>) -> Option<Status> {
    if s == "pending"@ {
        Some(Status::Pending)
    } else if s == "finished"@ {
        Some(Status::Finished)
    } else {
        None
    }
}

/// The importance denoted by `s`, if any.
pub open spec fn parse_importance_spec(s: Seq<char>) -> Option<Importance> {
    if s == "normal"@ {
        Some(Importance::Normal)
    } else if s == "important"@ {
        Some(Importance::Important)
    } else if s == "urgent"@ {
        Some(Importance::Urgent)
    } else {
        None
    }
}

pub fn parse_status(s: &str) -> (r: Option<Status>)
    ensures
        r == parse_status_spec(s@),
{
    if str_eq(s, "pending") {
        Some(Status::Pending)
    } else if str_eq(s, "finished") {
        Some(Status::Finished)
    } else {
        None
    }
}

pub fn parse_importance(s: &str) -> (r: Option<Importance>)
    ensures
        r == parse_importance_spec(s@),
{
    if str_eq(s, "normal") {
        Some(Importance::Normal)
    } else if str_eq(s, "important") {
        Some(Importance::Important)
    } else if str_eq(s, "urgent") {
        Some(Importance::Urgent)
    } else {
        None
    }
}

pub fn status_label(st: Status) -> (r: &'static str)
    ensures
        r@ == status_word(st),
{
    match st {
        Status::Pending => "pending",
        Status::Finished => "finished",
    }
}

pub fn importance_label(im: Importance) -> (r: &'static str)
    ensures
        r@ == importance_word(im),
{
    match im {
        Importance::Normal => "normal",
        Importance::Important => "important",
        Importance::Urgent => "urgent",
    }
}

/// No character of `s` is a comma.
pub open spec fn no_comma(s: Seq<char>) -> bool {
    forall|i: int| 0 <= i < s.len() ==> s[i] != ','
}

/// The closed vocabularies are comma-free and parse back to the value
/// they render.
pub proof fn lemma_vocab_words()
    ensures
        forall|st: Status| #![auto] no_comma(status_word(st)),
        forall|im: Importance| #![auto] no_comma(importance_word(im)),
        forall|st: Status| #![auto] parse_status_spec(status_word(st)) == Some(st),
        forall|im: Importance| #![auto] parse_importance_spec(importance_word(im)) == Some(im),
{
    reveal_strlit("pending");
    reveal_strlit("finished");
    reveal_strlit("normal");
    reveal_strlit("important");
    reveal_strlit("urgent");
    assert(no_comma("pending"@));
    assert(no_comma("finished"@));
    assert(no_comma("normal"@));
    assert(no_comma("important"@));
    assert(no_comma("urgent"@));
    assert("pending"@.len() != "finished"@.len());
    assert("normal"@[0] != "urgent"@[0]);
    assert("normal"@.len() != "important"@.len());
    assert("important"@.len() != "urgent"@.len());
    assert(forall|st: Status| #![auto] no_comma(status_word(st)));
    assert(forall|im: Importance| #![auto] no_comma(importance_word(im)));
}

/// The mathematical content of a task: its name as a character sequence.
pub ghost struct TaskView {
    pub id: u32,
    pub name: Seq<char>,
    pub status: Status,
    pub importance: Importance,
}

/// One unit of work.
#[derive(Debug)]
pub struct Task {
    pub id: u32,
    pub name: String,
    pub status: Status,
    pub importance: Importance,
}

impl View for Task {
    type V = TaskView;

    open spec fn view(&self) -> TaskView {
        TaskView {
            id: self.id,
            name: self.name@,
            status: self.status,
            importance: self.importance,
        }
    }
}

impl Clone for Task {
    fn clone(&self) -> (r: Self)
        ensures
            r@ == self@,
    {
        Task {
            id: self.id,
            name: self.name.clone(),
            status: self.status,
            importance: self.importance,
        }
    }
}

impl PartialEq for Task {
    fn eq(&self, other: &Task) -> (r: bool) {
        self.id == other.id && self.name == other.name && self.status == other.status
            && self.importance == other.importance
    }
}

impl vstd::std_specs::cmp::PartialEqSpecImpl for Task {
    open spec fn obeys_eq_spec() -> bool {
        true
    }

    open spec fn eq_spec(&self, other: &Task) -> bool {
        self@ == other@
    }
}

/// Why a line was rejected by the decoder.
#[derive(Clone, Copy, PartialEq, Eq, Structural, Debug)]
pub enum DecodeError {
    /// Fewer than three fields from the right split, or no comma between
    /// id and name.
    MalformedLine,
    /// The id field is not a decimal `u32`.
    InvalidId,
    /// The status field is outside its vocabulary.
    InvalidStatus,
    /// The importance field is outside its vocabulary.
    InvalidImportance,
}

pub open spec fn decode_error_text(e: DecodeError) -> Seq<char> {
    match e {
        DecodeError::MalformedLine => "Incorrect line format: couldn't split into 3 parts from right"@,
        DecodeError::InvalidId => "Invalid Id"@,
        DecodeError::InvalidStatus => "Invalid Status"@,
        DecodeError::InvalidImportance => "Invalid Importance"@,
    }
}

impl DecodeError {
    /// A human-readable description of the failure.
    pub fn message(&self) -> (r: String)
        ensures
            r@ == decode_error_text(*self),
    {
        match self {
            DecodeError::MalformedLine => String::from_str(
                "Incorrect line format: couldn't split into 3 parts from right",
            ),
            DecodeError::InvalidId => String::from_str("Invalid Id"),
            DecodeError::InvalidStatus => String::from_str("Invalid Status"),
            DecodeError::InvalidImportance => String::from_str("Invalid Importance"),
        }
    }
}

/// The line encoding of a task: four fields joined by commas.
pub open spec fn encode_spec(t: TaskView) -> Seq<char> {
    dec_str_of(t.id as nat) + seq![','] + t.name + seq![','] + status_word(t.status) + seq![',']
        + importance_word(t.importance)
}

/// What decoding a line yields: the right-split strategy. The last two
/// comma-separated fields are importance and status; the remainder splits
/// once, from the left, into id and name. Everything between those two
/// boundaries is the name, commas kept.
pub open spec fn decode_spec(s: Seq<char>) -> Result<TaskView, DecodeError> {
    let k2 = find_last_in(s, ',');
    if k2 < 0 {
        Err(DecodeError::MalformedLine)
    } else {
        let k1 = find_last_in(s.subrange(0, k2), ',');
        if k1 < 0 {
            Err(DecodeError::MalformedLine)
        } else {
            let id_name = s.subrange(0, k1);
            let status_s = s.subrange(k1 + 1, k2);
            let imp_s = s.subrange(k2 + 1, s.len() as int);
            let j = find_first_in(id_name, ',');
            if j < 0 {
                Err(DecodeError::MalformedLine)
            } else {
                let id_s = id_name.subrange(0, j);
                let name = id_name.subrange(j + 1, id_name.len() as int);
                if !valid_u32_str(id_s) {
                    Err(DecodeError::InvalidId)
                } else {
                    match parse_status_spec(status_s) {
                        None => Err(DecodeError::InvalidStatus),
                        Some(st) => match parse_importance_spec(imp_s) {
                            None => Err(DecodeError::InvalidImportance),
                            Some(im) => Ok(
                                TaskView {
                                    id: u32_str_value(id_s) as u32,
                                    name,
                                    status: st,
                                    importance: im,
                                },
                            ),
                        },
                    }
                }
            }
        }
    }
}

impl Task {
    /// The comma-delimited line form of the task.
    pub fn to_csv_line(&self) -> (r: String)
        ensures
            r@ == encode_spec(self@),
    {
        let mut s = u32_to_string(self.id);
        s.append(",");
        s.append(self.name.as_str());
        s.append(",");
        s.append(status_label(self.status));
        s.append(",");
        s.append(importance_label(self.importance));
        proof {
            reveal_strlit(",");
            assert(","@ =~= seq![',']);
            assert(s@ =~= encode_spec(self@));
        }
        s
    }

    /// Decodes one line into a task, by the right-split strategy.
    pub fn from_line(line: &str) -> (r: Result<Task, DecodeError>)
        ensures
            match decode_spec(line@) {
                Ok(tv) => r is Ok && r->Ok_0@ == tv,
                Err(e) => r == Err::<Task, DecodeError>(e),
            },
    {
        let n = line.unicode_len();
        proof {
            assert(line@.subrange(0, n as int) =~= line@);
        }
        let k2 = match rfind_char(line, ',', n) {
            Some(i) => i,
            None => {
                return Err(DecodeError::MalformedLine);
            },
        };
        let k1 = match rfind_char(line, ',', k2) {
            Some(i) => i,
            None => {
                return Err(DecodeError::MalformedLine);
            },
        };
        let id_name = line.substring_char(0, k1);
        let status_str = line.substring_char(k1 + 1, k2);
        let imp_str = line.substring_char(k2 + 1, n);
        let j = match find_char(id_name, ',') {
            Some(i) => i,
            None => {
                return Err(DecodeError::MalformedLine);
            },
        };
        let id_str = id_name.substring_char(0, j);
        let name_str = line.substring_char(j + 1, k1);
        proof {
            assert(id_name@.subrange(j + 1, id_name@.len() as int) =~= line@.subrange(
                j + 1,
                k1 as int,
            ));
        }
        let id = match parse_u32(id_str) {
            Some(v) => v,
            None => {
                return Err(DecodeError::InvalidId);
            },
        };
        let st = match parse_status(status_str) {
            Some(v) => v,
            None => {
                return Err(DecodeError::InvalidStatus);
            },
        };
        let im = match parse_importance(imp_str) {
            Some(v) => v,
            None => {
                return Err(DecodeError::InvalidImportance);
            },
        };
        proof {
            lemma_dec_value_nonneg(crate::digits::u32_digits_part(id_str@));
        }
        Ok(Task { id, name: String::from_str(name_str), status: st, importance: im })
    }
}

/// An encoded line is never empty, holds no line break when the name
/// holds none, and never ends in a carriage return (its last character
/// belongs to the importance vocabulary). A file of such lines can
/// therefore be split back apart at its line breaks.
pub proof fn lemma_encoded_line_shape(t: TaskView)
    requires
        forall|j: int| 0 <= j < t.name.len() ==> t.name[j] != '\n',
    ensures
        encode_spec(t).len() > 0,
        forall|j: int| 0 <= j < encode_spec(t).len() ==> encode_spec(t)[j] != '\n',
        encode_spec(t).last() != '\r',
{
    reveal_strlit("pending");
    reveal_strlit("finished");
    reveal_strlit("normal");
    reveal_strlit("important");
    reveal_strlit("urgent");
    crate::digits::lemma_dec_str_of_props(t.id as nat);
    let d = dec_str_of(t.id as nat);
    let sw = status_word(t.status);
    let iw = importance_word(t.importance);
    let e = encode_spec(t);
    let dl = d.len() as int;
    let nl = t.name.len() as int;
    let sl = sw.len() as int;
    let c1 = dl;
    let c2 = dl + 1 + nl;
    let c3 = dl + 1 + nl + 1 + sl;
    assert(e.len() == dl + nl + sl + iw.len() + 3);
    assert(forall|j: int| 0 <= j < sw.len() ==> sw[j] != '\n');
    assert(forall|j: int| 0 <= j < iw.len() ==> iw[j] != '\n');
    assert(forall|j: int| 0 <= j < e.len() ==> e[j] != '\n') by {
        assert(forall|j: int| 0 <= j < dl ==> e[j] == d[j] && is_digit(d[j]));
        assert(e[c1] == ',' && e[c2] == ',' && e[c3] == ',');
        assert(forall|j: int| 0 <= j < nl ==> e[c1 + 1 + j] == t.name[j]);
        assert(forall|j: int| 0 <= j < sl ==> e[c2 + 1 + j] == sw[j]);
        assert(forall|j: int| 0 <= j < iw.len() ==> e[c3 + 1 + j] == iw[j]);
    }
    assert(e.last() == iw.last());
    assert(iw.last() != '\r');
}

/// Round trip: every task decodes back from its own encoding, names with
/// embedded commas in particular.
pub proof fn lemma_encode_decode_roundtrip(t: TaskView)
    ensures
        decode_spec(encode_spec(t)) == Ok::<TaskView, DecodeError>(t),
{
    lemma_vocab_words();
    lemma_dec_str_of_valid(t.id);
    crate::digits::lemma_dec_str_of_props(t.id as nat);
    let d = dec_str_of(t.id as nat);
    let sw = status_word(t.status);
    let iw = importance_word(t.importance);
    let e = encode_spec(t);
    let dl = d.len() as int;
    let nl = t.name.len() as int;
    let sl = sw.len() as int;
    let il = iw.len() as int;
    let c1 = dl;
    let c2 = dl + 1 + nl;
    let c3 = dl + 1 + nl + 1 + sl;
    assert(e.len() == dl + nl + sl + il + 3);
    assert(forall|i: int| 0 <= i < dl ==> e[i] == d[i]);
    assert(e[c1] == ',');
    assert(forall|i: int| 0 <= i < nl ==> e[c1 + 1 + i] == t.name[i]);
    assert(e[c2] == ',');
    assert(forall|i: int| 0 <= i < sl ==> e[c2 + 1 + i] == sw[i]);
    assert(e[c3] == ',');
    assert(forall|i: int| 0 <= i < il ==> e[c3 + 1 + i] == iw[i]);
    // The last comma is the one before the importance field.
    assert(forall|j: int| c3 < j < e.len() ==> e[j] != ',');
    lemma_find_last_at(e, ',', c3);
    // The next comma to the left is the one before the status field.
    let head = e.subrange(0, c3);
    assert(forall|j: int| c2 < j < head.len() ==> head[j] != ',');
    lemma_find_last_at(head, ',', c2);
    // Id and name split at the first comma: the id digits are comma-free.
    let id_name = e.subrange(0, c2);
    assert(forall|j: int| 0 <= j < dl ==> id_name[j] != ',') by {
        assert(forall|j: int| 0 <= j < dl ==> is_digit(#[trigger] d[j]));
    }
    lemma_find_first_at(id_name, ',', c1);
    assert(id_name.subrange(0, c1) =~= d);
    assert(id_name.subrange(c1 + 1, id_name.len() as int) =~= t.name);
    assert(e.subrange(c2 + 1, c3) =~= sw);
    assert(e.subrange(c3 + 1, e.len() as int) =~= iw);
}

} // verus!
