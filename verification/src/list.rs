//! The read-modify-write store: an in-memory, ordered collection of tasks.
//!
//! The whole collection is loaded from the backing file's lines and the
//! whole collection is rendered back when saving; every persisted change
//! costs a rewrite of the file. Identifiers are not kept in a counter:
//! the next id is always one more than the highest id currently present,
//! so removing the highest-id task frees its id for reassignment.

use vstd::prelude::*;
use vstd::string::StrSliceExecFns;
use vstd::string::StringExecFns;
use crate::task::{
    decode_spec, encode_spec, lemma_encode_decode_roundtrip, lemma_encoded_line_shape, Importance,
    Status, Task, TaskView,
};
use crate::text::{
    contains_seq, contains_str, joined_lines, lemma_joined_lines_push, lemma_split_joined_lines,
    split_lines, split_lines_spec,
};

verus! {

/// The views of a sequence of tasks.
pub open spec fn tasks_view(ts: Seq<Task>) -> Seq<TaskView> {
    Seq::new(ts.len(), |i: int| ts[i]@)
}

/// The highest id present, or 0 when there are no tasks.
pub open spec fn max_id_of(s: Seq<TaskView>) -> int
    decreases s.len(),
{
    if s.len() == 0 {
        0
    } else {
        let rest = max_id_of(s.drop_last());
        if s.last().id as int > rest {
            s.last().id as int
        } else {
            rest
        }
    }
}

/// The id handed to the next added task: highest present plus one.
pub open spec fn next_id_of(s: Seq<TaskView>) -> int {
    max_id_of(s) + 1
}

/// Whether some task carries the given id.
pub open spec fn has_task(s: Seq<TaskView>, id: u32) -> bool {
    exists|i: int| 0 <= i < s.len() && s[i].id == id
}

/// The index of the first task with the given id, or -1.
pub open spec fn find_task_index(s: Seq<TaskView>, id: u32) -> int
    decreases s.len(),
{
    if s.len() == 0 {
        -1
    } else if s[0].id == id {
        0
    } else {
        let r = find_task_index(s.drop_first(), id);
        if r == -1 {
            -1
        } else {
            r + 1
        }
    }
}

proof fn lemma_find_task_none(s: Seq<TaskView>, id: u32)
    requires
        forall|j: int| 0 <= j < s.len() ==> s[j].id != id,
    ensures
        find_task_index(s, id) == -1,
    decreases s.len(),
{
    if s.len() > 0 {
        lemma_find_task_none(s.drop_first(), id);
    }
}

proof fn lemma_find_task_at(s: Seq<TaskView>, id: u32, i: int)
    requires
        0 <= i < s.len(),
        s[i].id == id,
        forall|j: int| 0 <= j < i ==> s[j].id != id,
    ensures
        find_task_index(s, id) == i,
    decreases s.len(),
{
    if i > 0 {
        assert(s.drop_first()[i - 1].id == id);
        lemma_find_task_at(s.drop_first(), id, i - 1);
    }
}

/// `find_task_index` finds an id exactly when one is present.
pub proof fn lemma_find_task_index_props(s: Seq<TaskView>, id: u32)
    ensures
        has_task(s, id) <==> find_task_index(s, id) >= 0,
        find_task_index(s, id) >= 0 ==> find_task_index(s, id) < s.len() && s[find_task_index(
            s,
            id,
        )].id == id,
    decreases s.len(),
{
    if s.len() > 0 {
        lemma_find_task_index_props(s.drop_first(), id);
        if s[0].id != id && has_task(s, id) {
            let w = choose|i: int| 0 <= i < s.len() && s[i].id == id;
            assert(s.drop_first()[w - 1].id == id);
        }
        if find_task_index(s.drop_first(), id) >= 0 {
            let r = find_task_index(s.drop_first(), id);
            assert(s[r + 1].id == id);
        }
    }
}

/// The fields of `t` after an update in which each given part replaces
/// the stored one and each absent part leaves it untouched.
pub open spec fn apply_update(
    t: TaskView,
    new_status: Option<Status>,
    new_importance: Option<Importance>,
) -> TaskView {
    TaskView {
        status: match new_status {
            Some(st) => st,
            None => t.status,
        },
        importance: match new_importance {
            Some(im) => im,
            None => t.importance,
        },
        ..t
    }
}

/// `s` with every task of the given id removed, order kept.
pub open spec fn without_id(s: Seq<TaskView>, id: u32) -> Seq<TaskView>
    decreases s.len(),
{
    if s.len() == 0 {
        s
    } else {
        let rest = without_id(s.drop_last(), id);
        if s.last().id == id {
            rest
        } else {
            rest.push(s.last())
        }
    }
}

/// A task after one reconciliation pass against `logs`: a pending task
/// whose name occurs in `logs` flips to finished; nothing else moves, and
/// a finished task never reverts.
pub open spec fn reconciled_task(t: TaskView, logs: Seq<char>) -> TaskView {
    if t.status == Status::Pending && contains_seq(logs, t.name) {
        TaskView { status: Status::Finished, ..t }
    } else {
        t
    }
}

pub open spec fn reconciled_all(s: Seq<TaskView>, logs: Seq<char>) -> Seq<TaskView> {
    Seq::new(s.len(), |i: int| reconciled_task(s[i], logs))
}

/// Whether one reconciliation pass against `logs` changes anything.
pub open spec fn any_reconciled(s: Seq<TaskView>, logs: Seq<char>) -> bool {
    exists|i: int| 0 <= i < s.len() && reconciled_task(s[i], logs) != s[i]
}

/// `Finished` is terminal: reconciliation never touches a finished
/// task, whatever the log text holds, and a second pass over the same
/// text changes nothing a first pass did not.
pub proof fn lemma_finished_never_reverts(t: TaskView, logs: Seq<char>)
    ensures
        t.status == Status::Finished ==> reconciled_task(t, logs) == t,
        reconciled_task(reconciled_task(t, logs), logs) == reconciled_task(t, logs),
{
}

/// What loading a sequence of lines yields: each line that decodes
/// becomes a task, in file order; a line that fails to decode is
/// silently skipped.
pub open spec fn decoded_tasks(lines: Seq<Seq<char>>) -> Seq<TaskView>
    decreases lines.len(),
{
    if lines.len() == 0 {
        Seq::empty()
    } else {
        let rest = decoded_tasks(lines.drop_last());
        match decode_spec(lines.last()) {
            Ok(t) => rest.push(t),
            Err(_) => rest,
        }
    }
}

/// The lines a collection of tasks is saved as, in collection order.
pub open spec fn encoded_lines(s: Seq<TaskView>) -> Seq<Seq<char>> {
    Seq::new(s.len(), |i: int| encode_spec(s[i]))
}

/// The whole backing file: every task encoded on its own line, each
/// line closed by a line break.
pub open spec fn rendered_content(s: Seq<TaskView>) -> Seq<char> {
    joined_lines(encoded_lines(s))
}

/// An ordered collection of tasks, backed by one file.
pub struct ToDoList {
    tasks: Vec<Task>,
}

impl View for ToDoList {
    type V = Seq<TaskView>;

    closed spec fn view(&self) -> Seq<TaskView> {
        tasks_view(self.tasks@)
    }
}

impl Default for ToDoList {
    fn default() -> (r: Self)
        ensures
            r@ == Seq::<TaskView>::empty(),
    {
        let r = ToDoList { tasks: Vec::new() };
        proof {
            assert(r@ =~= Seq::<TaskView>::empty());
        }
        r
    }
}

impl ToDoList {
    /// Builds a collection holding exactly the given tasks, in order.
    pub fn from_tasks(tasks: Vec<Task>) -> (r: ToDoList)
        ensures
            r@ == tasks_view(tasks@),
    {
        ToDoList { tasks }
    }

    /// Builds the collection from the backing file's lines; `None` stands
    /// for an absent file and yields an empty collection. Lines that fail
    /// to decode are skipped, so one corrupt line never blocks the rest.
    pub fn load_from_lines(lines: Option<&Vec<String>>) -> (r: ToDoList)
        ensures
            r@ == match lines {
                Some(ls) => decoded_tasks(ls.deep_view()),
                None => Seq::<TaskView>::empty(),
            },
    {
        let ls = match lines {
            Some(ls) => ls,
            None => {
                let r = ToDoList { tasks: Vec::new() };
                proof {
                    assert(r@ =~= Seq::<TaskView>::empty());
                }
                return r;
            },
        };
        let mut tasks: Vec<Task> = Vec::new();
        let mut i: usize = 0;
        while i < ls.len()
            invariant
                i <= ls@.len(),
                tasks_view(tasks@) == decoded_tasks(ls.deep_view().subrange(0, i as int)),
            decreases ls@.len() - i,
        {
            let ghost pre = ls.deep_view().subrange(0, i as int);
            let ghost ext = ls.deep_view().subrange(0, i as int + 1);
            proof {
                assert(ext.drop_last() =~= pre);
                assert(ext.last() == ls@[i as int]@);
            }
            match Task::from_line(ls[i].as_str()) {
                Ok(t) => {
                    tasks.push(t);
                    proof {
                        assert(tasks_view(tasks@) =~= decoded_tasks(ext));
                    }
                },
                Err(_) => {
                    proof {
                        assert(tasks_view(tasks@) =~= decoded_tasks(ext));
                    }
                },
            }
            i = i + 1;
        }
        proof {
            assert(ls.deep_view().subrange(0, ls@.len() as int) =~= ls.deep_view());
        }
        let r = ToDoList { tasks };
        r
    }

    /// Renders the collection as the lines of the backing file, one task
    /// per line, in collection order.
    pub fn to_lines(&self) -> (r: Vec<String>)
        ensures
            r.deep_view() == encoded_lines(self@),
    {
        let mut out: Vec<String> = Vec::new();
        let mut i: usize = 0;
        while i < self.tasks.len()
            invariant
                i <= self.tasks@.len(),
                out.deep_view() == encoded_lines(self@).subrange(0, i as int),
                self@ == tasks_view(self.tasks@),
            decreases self.tasks@.len() - i,
        {
            let line = self.tasks[i].to_csv_line();
            let ghost prev = out.deep_view();
            let ghost prev_vec = out@;
            let ghost lv = line@;
            out.push(line);
            proof {
                assert(forall|j: int| 0 <= j < prev_vec.len() ==> out@[j] == prev_vec[j]);
                assert(out.deep_view() =~= prev.push(lv));
                assert(lv == encoded_lines(self@)[i as int]);
                assert(out.deep_view() =~= encoded_lines(self@).subrange(0, i as int + 1));
            }
            i = i + 1;
        }
        proof {
            assert(encoded_lines(self@).subrange(0, self.tasks@.len() as int) =~= encoded_lines(
                self@,
            ));
        }
        out
    }

    /// Builds the collection straight from the backing file's whole
    /// text; `None` stands for an absent file. The text is split at its
    /// line breaks and each line decodes leniently, as in
    /// [`Self::load_from_lines`].
    pub fn load_from_content(content: Option<&str>) -> (r: ToDoList)
        ensures
            r@ == match content {
                Some(c) => decoded_tasks(split_lines_spec(c@)),
                None => Seq::<TaskView>::empty(),
            },
    {
        match content {
            None => ToDoList::load_from_lines(None),
            Some(c) => {
                let lines = split_lines(c);
                ToDoList::load_from_lines(Some(&lines))
            },
        }
    }

    /// Renders the collection as the whole text of the backing file.
    pub fn to_file_content(&self) -> (r: String)
        ensures
            r@ == rendered_content(self@),
    {
        let lines = self.to_lines();
        let mut out = String::new();
        let ghost dv = lines.deep_view();
        let mut i: usize = 0;
        proof {
            assert(dv.subrange(0, 0) =~= Seq::<Seq<char>>::empty());
        }
        while i < lines.len()
            invariant
                i <= lines@.len(),
                dv == lines.deep_view(),
                dv == encoded_lines(self@),
                out@ == joined_lines(dv.subrange(0, i as int)),
            decreases lines@.len() - i,
        {
            out.append(lines[i].as_str());
            out.append("\n");
            proof {
                reveal_strlit("\n");
                lemma_joined_lines_push(dv.subrange(0, i as int), dv[i as int]);
                assert(dv.subrange(0, i as int).push(dv[i as int]) =~= dv.subrange(
                    0,
                    i as int + 1,
                ));
                assert(out@ =~= joined_lines(dv.subrange(0, i as int + 1)));
            }
            i = i + 1;
        }
        proof {
            assert(dv.subrange(0, lines@.len() as int) =~= dv);
        }
        out
    }

    /// One more than the highest id present, or 1 for an empty
    /// collection.
    pub fn get_next_id(&self) -> (r: u32)
        requires
            max_id_of(self@) < u32::MAX,
        ensures
            r as int == next_id_of(self@),
    {
        let mut m: u32 = 0;
        let mut i: usize = 0;
        while i < self.tasks.len()
            invariant
                i <= self.tasks@.len(),
                self@ == tasks_view(self.tasks@),
                m as int == max_id_of(self@.subrange(0, i as int)),
                max_id_of(self@) < u32::MAX,
            decreases self.tasks@.len() - i,
        {
            let ghost pre = self@.subrange(0, i as int);
            let ghost ext = self@.subrange(0, i as int + 1);
            proof {
                assert(ext.drop_last() =~= pre);
                assert(ext.last() == self@[i as int]);
            }
            if self.tasks[i].id > m {
                m = self.tasks[i].id;
            }
            i = i + 1;
        }
        proof {
            assert(self@.subrange(0, self.tasks@.len() as int) =~= self@);
        }
        m + 1
    }

    /// Appends a new pending task under the next free id and returns that
    /// id. Nothing is persisted here; the caller decides when to save.
    pub fn add_task(&mut self, name: String, importance: Importance) -> (r: u32)
        requires
            max_id_of(old(self)@) < u32::MAX,
        ensures
            r as int == next_id_of(old(self)@),
            final(self)@ == old(self)@.push(
                TaskView { id: r, name: name@, status: Status::Pending, importance },
            ),
            max_id_of(final(self)@) == r as int,
    {
        let new_id = self.get_next_id();
        let new_task = Task { id: new_id, name, status: Status::Pending, importance };
        self.tasks.push(new_task);
        proof {
            assert(self@ =~= old(self)@.push(
                TaskView { id: new_id, name: new_task.name@, status: Status::Pending, importance },
            ));
            assert(self@.drop_last() =~= old(self)@);
            assert(self@.last().id == new_id);
        }
        new_id
    }

    /// Overwrites only the fields whose argument is present on the first
    /// task with the given id; reports whether such a task existed.
    pub fn update_task(
        &mut self,
        id: u32,
        new_status: Option<Status>,
        new_importance: Option<Importance>,
    ) -> (r: bool)
        ensures
            r == has_task(old(self)@, id),
            !r ==> final(self)@ == old(self)@,
            r ==> final(self)@ == old(self)@.update(
                find_task_index(old(self)@, id),
                apply_update(
                    old(self)@[find_task_index(old(self)@, id)],
                    new_status,
                    new_importance,
                ),
            ),
    {
        let mut i: usize = 0;
        while i < self.tasks.len()
            invariant
                i <= self.tasks@.len(),
                *self == *old(self),
                forall|j: int| 0 <= j < i ==> old(self)@[j].id != id,
            decreases self.tasks@.len() - i,
        {
            if self.tasks[i].id == id {
                proof {
                    lemma_find_task_at(old(self)@, id, i as int);
                    lemma_find_task_index_props(old(self)@, id);
                }
                if let Some(st) = new_status {
                    self.tasks[i].status = st;
                }
                if let Some(im) = new_importance {
                    self.tasks[i].importance = im;
                }
                proof {
                    assert(self@ =~= old(self)@.update(
                        i as int,
                        apply_update(old(self)@[i as int], new_status, new_importance),
                    ));
                }
                return true;
            }
            i = i + 1;
        }
        proof {
            lemma_find_task_none(old(self)@, id);
            lemma_find_task_index_props(old(self)@, id);
            assert(self@ =~= old(self)@);
        }
        false
    }

    /// Deletes every task with the given id, keeping the order of the
    /// rest; reports whether anything was deleted.
    pub fn remove_task(&mut self, id: u32) -> (r: bool)
        ensures
            final(self)@ == without_id(old(self)@, id),
            r == has_task(old(self)@, id),
    {
        let mut kept: Vec<Task> = Vec::new();
        let mut found = false;
        let mut i: usize = 0;
        proof {
            assert(tasks_view(kept@) =~= without_id(old(self)@.subrange(0, 0), id));
        }
        while i < self.tasks.len()
            invariant
                i <= self.tasks@.len(),
                *self == *old(self),
                tasks_view(kept@) == without_id(old(self)@.subrange(0, i as int), id),
                found == has_task(old(self)@.subrange(0, i as int), id),
            decreases self.tasks@.len() - i,
        {
            let ghost pre = old(self)@.subrange(0, i as int);
            let ghost ext = old(self)@.subrange(0, i as int + 1);
            proof {
                assert(ext.drop_last() =~= pre);
                assert(ext.last() == old(self)@[i as int]);
            }
            if self.tasks[i].id == id {
                found = true;
                proof {
                    assert(ext[i as int].id == id);
                    assert(has_task(ext, id));
                }
            } else {
                kept.push(self.tasks[i].clone());
                proof {
                    assert(tasks_view(kept@) =~= without_id(ext, id));
                    if has_task(ext, id) {
                        let w = choose|k: int| 0 <= k < ext.len() && ext[k].id == id;
                        assert(pre[w] == ext[w]);
                    }
                }
            }
            i = i + 1;
        }
        proof {
            assert(old(self)@.subrange(0, self.tasks@.len() as int) =~= old(self)@);
        }
        self.tasks = kept;
        found
    }

    /// One reconciliation sweep: every pending task whose name occurs
    /// verbatim in `logs_content` flips to finished. A finished task is
    /// never touched again, whatever the text holds. Reports whether at
    /// least one task changed.
    pub fn update_statuses_from_logs(&mut self, logs_content: &str) -> (r: bool)
        ensures
            final(self)@ == reconciled_all(old(self)@, logs_content@),
            r == any_reconciled(old(self)@, logs_content@),
    {
        let mut changed = false;
        let mut i: usize = 0;
        let n = self.tasks.len();
        while i < n
            invariant
                i <= n,
                n == self.tasks@.len(),
                self.tasks@.len() == old(self).tasks@.len(),
                forall|j: int| i <= j < n ==> self.tasks@[j] == old(self).tasks@[j],
                forall|j: int|
                    0 <= j < i ==> self.tasks@[j]@ == reconciled_task(
                        old(self)@[j],
                        logs_content@,
                    ),
                changed == any_reconciled(old(self)@.subrange(0, i as int), logs_content@),
            decreases n - i,
        {
            proof {
                assert(self.tasks@[i as int]@ == old(self)@[i as int]);
            }
            let is_pending = match self.tasks[i].status {
                Status::Pending => true,
                Status::Finished => false,
            };
            if is_pending && contains_str(logs_content, self.tasks[i].name.as_str()) {
                self.tasks[i].status = Status::Finished;
                changed = true;
                proof {
                    assert(reconciled_task(old(self)@[i as int], logs_content@) != old(
                        self,
                    )@[i as int]);
                }
            }
            proof {
                let lg = logs_content@;
                let pre = old(self)@.subrange(0, i as int);
                let ext = old(self)@.subrange(0, i as int + 1);
                assert(forall|j: int| 0 <= j < ext.len() ==> ext[j] == old(self)@[j]);
                assert(forall|j: int| 0 <= j < pre.len() ==> pre[j] == old(self)@[j]);
                if changed {
                    if any_reconciled(pre, lg) {
                        let w = choose|j: int|
                            0 <= j < pre.len() && reconciled_task(pre[j], lg) != pre[j];
                        assert(reconciled_task(ext[w], lg) != ext[w]);
                    } else {
                        assert(reconciled_task(ext[i as int], lg) != ext[i as int]);
                    }
                    assert(any_reconciled(ext, lg));
                } else {
                    assert(forall|j: int| 0 <= j < ext.len()
                        ==> reconciled_task(#[trigger] ext[j], lg) == ext[j]) by {
                        assert(forall|j: int| 0 <= j < pre.len()
                            ==> reconciled_task(#[trigger] pre[j], lg) == pre[j]);
                        assert(reconciled_task(old(self)@[i as int], lg) == old(self)@[i as int]);
                    }
                    assert(!any_reconciled(ext, lg));
                }
            }
            i = i + 1;
        }
        proof {
            assert(old(self)@.subrange(0, n as int) =~= old(self)@);
            assert(self@ =~= reconciled_all(old(self)@, logs_content@));
        }
        changed
    }

    /// Whether the collection holds no tasks.
    pub fn is_empty(&self) -> (r: bool)
        ensures
            r == (self@.len() == 0),
    {
        self.tasks.is_empty()
    }

    /// A read-only view of the tasks, in collection order.
    pub fn tasks(&self) -> (r: &Vec<Task>)
        ensures
            r@.len() == self@.len(),
            forall|i: int| 0 <= i < r@.len() ==> r@[i]@ == self@[i],
    {
        &self.tasks
    }
}

proof fn lemma_max_id_ge(s: Seq<TaskView>, i: int)
    requires
        0 <= i < s.len(),
    ensures
        max_id_of(s) >= s[i].id,
    decreases s.len(),
{
    if i < s.len() - 1 {
        lemma_max_id_ge(s.drop_last(), i);
    }
}

proof fn lemma_has_task_without(s: Seq<TaskView>, id: u32, k: u32)
    requires
        has_task(s, k),
        k != id,
    ensures
        has_task(without_id(s, id), k),
    decreases s.len(),
{
    let w = choose|i: int| 0 <= i < s.len() && s[i].id == k;
    if w == s.len() - 1 {
        assert(s.last().id == k);
        let r = without_id(s, id);
        assert(r == without_id(s.drop_last(), id).push(s.last()));
        assert(r[r.len() - 1].id == k);
    } else {
        assert(s.drop_last()[w].id == k);
        lemma_has_task_without(s.drop_last(), id, k);
        let v = choose|i: int|
            0 <= i < without_id(s.drop_last(), id).len() && without_id(s.drop_last(), id)[i].id
                == k;
        let r = without_id(s, id);
        if s.last().id == id {
            assert(r[v].id == k);
        } else {
            assert(r == without_id(s.drop_last(), id).push(s.last()));
            assert(r[v].id == k);
        }
    }
}

/// The id counter of this store is nothing but the highest id present:
/// after the task with the highest id `m` is removed, the next id handed
/// out is at most `m`, and exactly `m` while a task with id `m - 1`
/// remains. A freed id is therefore reassigned.
pub proof fn lemma_remove_highest_reassigns_id(s: Seq<TaskView>, m: u32)
    requires
        m >= 1,
        has_task(s, m),
        forall|i: int| 0 <= i < s.len() ==> s[i].id <= m,
    ensures
        next_id_of(without_id(s, m)) <= m,
        has_task(s, (m - 1) as u32) ==> next_id_of(without_id(s, m)) == m,
{
    lemma_without_id_max_strict(s, m);
    if has_task(s, (m - 1) as u32) {
        lemma_has_task_without(s, m, (m - 1) as u32);
        let w = without_id(s, m);
        let v = choose|i: int| 0 <= i < w.len() && w[i].id == (m - 1) as u32;
        lemma_max_id_ge(w, v);
    }
}

proof fn lemma_without_id_max_strict(s: Seq<TaskView>, m: u32)
    requires
        m >= 1,
        forall|i: int| 0 <= i < s.len() ==> s[i].id <= m,
    ensures
        max_id_of(without_id(s, m)) <= m - 1,
    decreases s.len(),
{
    if s.len() > 0 {
        lemma_without_id_max_strict(s.drop_last(), m);
        let w = without_id(s, m);
        if s.last().id != m {
            assert(w == without_id(s.drop_last(), m).push(s.last()));
            assert(w.drop_last() =~= without_id(s.drop_last(), m));
            assert(w.last() == s.last());
        }
    }
}

/// Removing an id that nothing carries changes nothing.
pub proof fn lemma_without_id_absent(s: Seq<TaskView>, id: u32)
    requires
        !has_task(s, id),
    ensures
        without_id(s, id) == s,
    decreases s.len(),
{
    if s.len() > 0 {
        assert(forall|i: int| 0 <= i < s.drop_last().len() ==> s.drop_last()[i] == s[i]);
        lemma_without_id_absent(s.drop_last(), id);
        assert(s[s.len() - 1].id != id);
        assert(without_id(s, id) =~= s);
    }
}

/// Saving and loading are mutually inverse: decoding the encoded lines
/// of any collection yields that collection back, so a second
/// save-then-load round changes nothing.
pub proof fn lemma_save_load_roundtrip(s: Seq<TaskView>)
    ensures
        decoded_tasks(encoded_lines(s)) == s,
    decreases s.len(),
{
    if s.len() == 0 {
        assert(encoded_lines(s) =~= Seq::<Seq<char>>::empty());
        assert(decoded_tasks(encoded_lines(s)) =~= s);
    } else {
        lemma_save_load_roundtrip(s.drop_last());
        let ls = encoded_lines(s);
        assert(ls.drop_last() =~= encoded_lines(s.drop_last()));
        assert(ls.last() == encode_spec(s.last()));
        lemma_encode_decode_roundtrip(s.last());
        assert(decoded_tasks(ls) =~= s);
    }
}

/// The same, for the whole backing file at once: loading the rendered
/// text of any collection yields that collection back, as long as no
/// task name holds a line break (the format has no escape for one).
pub proof fn lemma_file_roundtrip(s: Seq<TaskView>)
    requires
        forall|i: int, j: int|
            0 <= i < s.len() && 0 <= j < s[i].name.len() ==> #[trigger] s[i].name[j] != '\n',
    ensures
        decoded_tasks(split_lines_spec(rendered_content(s))) == s,
{
    let ls = encoded_lines(s);
    assert forall|i: int, j: int|
        0 <= i < ls.len() && 0 <= j < ls[i].len() implies #[trigger] ls[i][j] != '\n' by {
        lemma_encoded_line_shape(s[i]);
    }
    assert forall|i: int|
        0 <= i < ls.len() && ls[i].len() > 0 implies (#[trigger] ls[i]).last() != '\r' by {
        lemma_encoded_line_shape(s[i]);
    }
    lemma_split_joined_lines(ls);
    lemma_save_load_roundtrip(s);
}

} // verus!
