//! The task store: it owns the in-memory collection for one invocation,
//! keeps its ids unique, and turns it into and out of the persisted text.

use vstd::prelude::*;

use crate::codec;
use crate::codec::StorageError;
use crate::task::{contains_id, is_first_match, remove_id, unique_ids, TaskModel, Todo};

verus! {

/// Relies on uuid::Uuid::new_v4 and its display form: a fresh random
/// identifier, written as 36 hyphenated lowercase hexadecimal characters.
/// Nothing is assumed about which identifier comes back.
#[verifier::external_body]
fn new_id() -> (r: String)
    ensures
        r@.len() == 36,
{
    uuid::Uuid::new_v4().to_string()
}

/// The collection of tasks, with no two tasks sharing an id.
pub struct TaskStore {
    tasks: Vec<Todo>,
}

impl View for TaskStore {
    type V = Seq<TaskModel>;

    closed spec fn view(&self) -> Seq<TaskModel> {
        self.tasks.deep_view()
    }
}

impl TaskStore {
    /// The store's invariant: task ids are unique.
    pub open spec fn wf(&self) -> bool {
        unique_ids(self@)
    }

    /// An empty store.
    pub fn new() -> (r: TaskStore)
        ensures
            r@ == Seq::<TaskModel>::empty(),
            r.wf(),
    {
        let tasks: Vec<Todo> = Vec::new();
        assert(tasks.deep_view() =~= Seq::<TaskModel>::empty());
        TaskStore { tasks }
    }

    /// A store over the given tasks, when their ids are unique; the reason
    /// they cannot form a store otherwise.
    pub fn from_tasks(tasks: Vec<Todo>) -> (r: Result<TaskStore, StorageError>)
        ensures
            match r {
                Ok(st) => st@ == tasks.deep_view() && st.wf(),
                Err(e) => !unique_ids(tasks.deep_view()) && e is DuplicateId,
            },
    {
        let n = tasks.len();
        let mut i: usize = 0;
        while i < n
            invariant
                i <= n,
                n == tasks@.len(),
                forall|a: int, b: int| 0 <= a < b < tasks.deep_view().len() && a < i
                    ==> tasks.deep_view()[a].id != tasks.deep_view()[b].id,
            decreases n - i,
        {
            let mut j: usize = i + 1;
            while j < n
                invariant
                    i < j <= n || (i + 1 == j && j > n),
                    i < n,
                    n == tasks@.len(),
                    forall|a: int, b: int| 0 <= a < b < tasks.deep_view().len() && a < i
                        ==> tasks.deep_view()[a].id != tasks.deep_view()[b].id,
                    forall|b: int| i < b < j ==> tasks.deep_view()[i as int].id
                        != tasks.deep_view()[b].id,
                decreases n - j,
            {
                if tasks[i].id == tasks[j].id {
                    assert(tasks.deep_view()[i as int].id == tasks.deep_view()[j as int].id);
                    assert(!unique_ids(tasks.deep_view()));
                    return Err(StorageError::DuplicateId);
                }
                j = j + 1;
            }
            i = i + 1;
        }
        Ok(TaskStore { tasks })
    }

    /// Loads the store from the persisted text, or starts empty when no
    /// text has been persisted yet. Fails exactly when a text is given that
    /// is not the encoding of a collection with unique ids.
    pub fn load_from(contents: Option<&str>) -> (r: Result<TaskStore, StorageError>)
        ensures
            match r {
                Ok(st) => st.wf() && (match contents {
                    None => st@ == Seq::<TaskModel>::empty(),
                    Some(s) => s@ == codec::enc_list(st@),
                }),
                Err(e) => contents is Some && (match e {
                    StorageError::Malformed => forall|ts: Seq<TaskModel>|
                        contents.unwrap()@ != codec::enc_list(ts),
                    StorageError::DuplicateId => exists|ts: Seq<TaskModel>|
                        contents.unwrap()@ == codec::enc_list(ts) && !unique_ids(ts),
                }),
            },
    {
        match contents {
            None => Ok(TaskStore::new()),
            Some(text) => {
                match codec::decode(text) {
                    Err(e) => Err(e),
                    Ok(tasks) => {
                        let ghost dv = tasks.deep_view();
                        match TaskStore::from_tasks(tasks) {
                            Ok(st) => Ok(st),
                            Err(e) => {
                                assert(text@ == codec::enc_list(dv) && !unique_ids(dv));
                                Err(e)
                            },
                        }
                    },
                }
            },
        }
    }

    /// The persisted text of the current collection.
    pub fn save(&self) -> (r: String)
        ensures
            r@ == codec::enc_list(self@),
    {
        codec::encode(&self.tasks)
    }

    /// The current collection, in its stored order.
    pub fn list(&self) -> (r: &Vec<Todo>)
        ensures
            r.deep_view() == self@,
    {
        &self.tasks
    }

    /// The number of stored tasks.
    pub fn count(&self) -> (r: usize)
        ensures
            r == self@.len(),
    {
        self.tasks.len()
    }

    /// Mints a fresh id and appends a new task with it. In the
    /// astronomically unlikely case that the minted id is already taken, the
    /// store is left unchanged and nothing is returned — which can happen
    /// only when some stored id already has an id's 36 characters, so on an
    /// empty store (and on any store of differently sized ids) creation
    /// succeeds.
    pub fn create(&mut self, title: String, body: String) -> (r: Option<Todo>)
        requires
            old(self).wf(),
        ensures
            final(self).wf(),
            match r {
                Some(t) => {
                    &&& t@.id.len() == 36
                    &&& t@.title == title@
                    &&& t@.body == body@
                    &&& !contains_id(old(self)@, t@.id)
                    &&& final(self)@ == old(self)@.push(t@)
                },
                None => final(self)@ == old(self)@ && (exists|u: Seq<char>|
                    u.len() == 36 && contains_id(old(self)@, u)),
            },
    {
        let id = new_id();
        match Todo::position_of(&self.tasks, &id) {
            Some(_) => {
                proof {
                    assert(id@.len() == 36 && contains_id(old(self)@, id@));
                }
                None
            },
            None => {
                let new_todo = Todo { id, title, body };
                let ghost before = self.tasks.deep_view();
                let ghost tv = new_todo@;
                let ret = new_todo.clone();
                self.tasks.push(new_todo);
                proof {
                    assert(self.tasks.deep_view() =~= before.push(tv));
                    assert(unique_ids(before.push(tv))) by {
                        assert(forall|i: int| 0 <= i < before.len()
                            ==> before.push(tv)[i] == before[i]);
                        assert(forall|i: int| 0 <= i < before.len() ==> before[i].id != tv.id);
                    }
                }
                Some(ret)
            },
        }
    }

    /// Replaces the title and body of the task with this id, keeping its id
    /// and position; changes nothing when no task has the id — the store
    /// then saves to the very same text as before.
    pub fn update(&mut self, id: String, title: String, body: String)
        requires
            old(self).wf(),
        ensures
            final(self).wf(),
            !contains_id(old(self)@, id@) ==> final(self)@ == old(self)@
                && codec::enc_list(final(self)@) == codec::enc_list(old(self)@),
            contains_id(old(self)@, id@) ==> exists|k: int|
                is_first_match(old(self)@, id@, k) && final(self)@ == old(self)@.update(
                    k,
                    TaskModel { id: id@, title: title@, body: body@ },
                ),
            final(self)@.len() == old(self)@.len(),
            forall|i: int| 0 <= i < old(self)@.len() ==> final(self)@[i].id == old(self)@[i].id,
    {
        Todo::update(&mut self.tasks, id, title, body);
        proof {
            assert(unique_ids(self@)) by {
                assert(forall|i: int| 0 <= i < old(self)@.len() ==> self@[i].id == old(
                    self,
                )@[i].id);
            }
        }
    }

    /// Removes the task with this id, keeping the others in their stored
    /// order; changes nothing when no task has the id. The count drops by
    /// one exactly when the id was present.
    pub fn delete(&mut self, id: String)
        requires
            old(self).wf(),
        ensures
            final(self).wf(),
            final(self)@ == remove_id(old(self)@, id@),
            !contains_id(old(self)@, id@) ==> final(self)@ == old(self)@,
            final(self)@.len() == old(self)@.len() - (if contains_id(old(self)@, id@) {
                1int
            } else {
                0
            }),
    {
        Todo::delete(&mut self.tasks, id);
        proof {
            crate::task::lemma_remove_id_exact(old(self)@, id@);
            crate::task::lemma_remove_id_unique(old(self)@, id@);
        }
    }
}

} // verus!
