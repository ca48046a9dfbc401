//! The task record and the specification-level model of a task collection.

use vstd::prelude::*;

verus! {

/// Mathematical model of one task: its three text fields as character
/// sequences.
pub ghost struct TaskModel {
    pub id: Seq<char>,
    pub title: Seq<char>,
    pub body: Seq<char>,
}

/// One stored task. `id` is minted at creation and never changed afterwards;
/// `title` and `body` are free text.
pub struct Todo {
    pub id: String,
    pub title: String,
    pub body: String,
}

impl View for Todo {
    type V = TaskModel;

    open spec fn view(&self) -> TaskModel {
        TaskModel { id: self.id@, title: self.title@, body: self.body@ }
    }
}

impl DeepView for Todo {
    type V = TaskModel;

    open spec fn deep_view(&self) -> TaskModel {
        self.view()
    }
}

impl Clone for Todo {
    fn clone(&self) -> (r: Self)
        ensures
            r@ == self@,
    {
        Todo { id: self.id.clone(), title: self.title.clone(), body: self.body.clone() }
    }
}

/// No two tasks of the collection share an id.
pub open spec fn unique_ids(s: Seq<TaskModel>) -> bool {
    forall|i: int, j: int| 0 <= i < j < s.len() ==> s[i].id != s[j].id
}

/// Some task of the collection has this id.
pub open spec fn contains_id(s: Seq<TaskModel>, id: Seq<char>) -> bool {
    exists|i: int| 0 <= i < s.len() && s[i].id == id
}

/// `k` is the first position whose task has this id.
pub open spec fn is_first_match(s: Seq<TaskModel>, id: Seq<char>, k: int) -> bool {
    &&& 0 <= k < s.len()
    &&& s[k].id == id
    &&& forall|j: int| 0 <= j < k ==> s[j].id != id
}

/// The collection with every task of this id removed, in the remaining
/// tasks' original order.
pub open spec fn remove_id(s: Seq<TaskModel>, id: Seq<char>) -> Seq<TaskModel>
    decreases s.len(),
{
    if s.len() == 0 {
        s
    } else if s[0].id == id {
        remove_id(s.drop_first(), id)
    } else {
        seq![s[0]] + remove_id(s.drop_first(), id)
    }
}

/// Removing an id that no task has changes nothing; removing one that a task
/// has, from a collection of unique ids, removes exactly that task and keeps
/// the others in their relative order. The length drops by one exactly when
/// the id was present.
pub proof fn lemma_remove_id_exact(s: Seq<TaskModel>, id: Seq<char>)
    requires
        unique_ids(s),
    ensures
        !contains_id(s, id) ==> remove_id(s, id) == s,
        contains_id(s, id) ==> exists|k: int|
            is_first_match(s, id, k) && remove_id(s, id) == s.take(k) + s.skip(k + 1),
        remove_id(s, id).len() == s.len() - (if contains_id(s, id) { 1int } else { 0 }),
    decreases s.len(),
{
    if s.len() == 0 {
        assert(!contains_id(s, id));
    } else {
        let s2 = s.drop_first();
        assert(unique_ids(s2)) by {
            assert(forall|i: int, j: int| 0 <= i < j < s2.len() ==> s2[i] == s[i + 1]
                && s2[j] == s[j + 1]);
        }
        lemma_remove_id_exact(s2, id);
        if s[0].id == id {
            assert(contains_id(s, id));
            assert(!contains_id(s2, id)) by {
                if contains_id(s2, id) {
                    let i = choose|i: int| 0 <= i < s2.len() && s2[i].id == id;
                    assert(s[i + 1].id == id);
                    assert(s[0].id != s[i + 1].id);
                }
            }
            assert(remove_id(s, id) == s2);
            assert(is_first_match(s, id, 0));
            assert(s.take(0) + s.skip(1) =~= s2);
        } else {
            if contains_id(s, id) {
                assert(contains_id(s2, id)) by {
                    let i = choose|i: int| 0 <= i < s.len() && s[i].id == id;
                    assert(i != 0);
                    assert(s2[i - 1].id == id);
                }
                let k2 = choose|k: int|
                    is_first_match(s2, id, k) && remove_id(s2, id) == s2.take(k) + s2.skip(k + 1);
                assert(is_first_match(s, id, k2 + 1)) by {
                    assert(forall|j: int| 1 <= j < k2 + 1 ==> s[j] == s2[j - 1]);
                }
                assert(remove_id(s, id) == seq![s[0]] + (s2.take(k2) + s2.skip(k2 + 1)));
                assert(seq![s[0]] + (s2.take(k2) + s2.skip(k2 + 1)) =~= s.take(k2 + 1) + s.skip(
                    k2 + 2,
                ));
            } else {
                assert(!contains_id(s2, id)) by {
                    if contains_id(s2, id) {
                        let i = choose|i: int| 0 <= i < s2.len() && s2[i].id == id;
                        assert(s[i + 1].id == id);
                    }
                }
                assert(remove_id(s, id) == seq![s[0]] + s2);
                assert(seq![s[0]] + s2 =~= s);
            }
        }
    }
}

/// Removing an id keeps the remaining ids unique.
pub proof fn lemma_remove_id_unique(s: Seq<TaskModel>, id: Seq<char>)
    requires
        unique_ids(s),
    ensures
        unique_ids(remove_id(s, id)),
{
    lemma_remove_id_exact(s, id);
    if contains_id(s, id) {
        let k = choose|k: int|
            is_first_match(s, id, k) && remove_id(s, id) == s.take(k) + s.skip(k + 1);
        let r = remove_id(s, id);
        assert forall|i: int, j: int| 0 <= i < j < r.len() implies r[i].id != r[j].id by {
            assert(r[i] == if i < k { s[i] } else { s[i + 1] });
            assert(r[j] == if j < k { s[j] } else { s[j + 1] });
        }
    }
}

impl Todo {
    /// The position of the first task with this id, when there is one.
    pub fn position_of(todos: &Vec<Todo>, id: &String) -> (r: Option<usize>)
        ensures
            match r {
                Some(k) => is_first_match(todos.deep_view(), id@, k as int),
                None => !contains_id(todos.deep_view(), id@),
            },
    {
        let n = todos.len();
        let mut i: usize = 0;
        while i < n
            invariant
                i <= n,
                n == todos@.len(),
                forall|j: int| 0 <= j < i ==> todos.deep_view()[j].id != id@,
            decreases n - i,
        {
            if todos[i].id == *id {
                return Some(i);
            }
            i = i + 1;
        }
        None
    }

    /// Replaces the title and body of the first task with this id, keeping
    /// its id; changes nothing when no task has the id. The number of tasks
    /// and every task's id are unchanged either way.
    pub fn update(todos: &mut Vec<Todo>, id: String, title: String, body: String)
        ensures
            !contains_id(old(todos).deep_view(), id@) ==> final(todos).deep_view() == old(
                todos,
            ).deep_view(),
            contains_id(old(todos).deep_view(), id@) ==> exists|k: int|
                is_first_match(old(todos).deep_view(), id@, k) && final(todos).deep_view() == old(
                    todos,
                ).deep_view().update(
                    k,
                    TaskModel { id: id@, title: title@, body: body@ },
                ),
            final(todos).deep_view().len() == old(todos).deep_view().len(),
            forall|i: int| 0 <= i < old(todos).deep_view().len() ==> final(todos).deep_view()[
                i
            ].id == old(todos).deep_view()[i].id,
    {
        match Todo::position_of(todos, &id) {
            None => {},
            Some(k) => {
                let repl = Todo { id, title, body };
                let ghost before = todos.deep_view();
                let _ = todos.remove(k);
                todos.insert(k, repl);
                proof {
                    assert(todos.deep_view() =~= before.update(
                        k as int,
                        TaskModel { id: before[k as int].id, title: title@, body: body@ },
                    ));
                }
            },
        }
    }

    /// Removes every task with this id (at most one when ids are unique),
    /// keeping the others in their original order.
    pub fn delete(todos: &mut Vec<Todo>, id: String)
        ensures
            final(todos).deep_view() == remove_id(old(todos).deep_view(), id@),
    {
        let ghost s = todos.deep_view();
        let n = todos.len();
        let mut kept: Vec<Todo> = Vec::new();
        let mut i: usize = 0;
        proof {
            assert(kept.deep_view() =~= Seq::<TaskModel>::empty());
            assert(s.skip(0) =~= s);
            assert(kept.deep_view() + remove_id(s, id@) =~= remove_id(s, id@));
        }
        while i < n
            invariant
                i <= n,
                n == todos@.len(),
                todos@ == old(todos)@,
                s == todos.deep_view(),
                kept.deep_view() + remove_id(s.skip(i as int), id@) == remove_id(s, id@),
            decreases n - i,
        {
            proof {
                assert(s.skip(i as int)[0] == s[i as int]);
                assert(s.skip(i as int).drop_first() =~= s.skip(i as int + 1));
            }
            if todos[i].id == id {
                assert(s[i as int].id == id@);
            } else {
                let ghost kept_before = kept.deep_view();
                kept.push(todos[i].clone());
                proof {
                    assert(kept.deep_view() =~= kept_before.push(s[i as int]));
                    assert(kept_before + (seq![s[i as int]] + remove_id(
                        s.skip(i as int + 1),
                        id@,
                    )) =~= kept.deep_view() + remove_id(s.skip(i as int + 1), id@));
                }
            }
            i = i + 1;
        }
        proof {
            assert(s.skip(n as int) =~= Seq::<TaskModel>::empty());
            assert(remove_id(Seq::<TaskModel>::empty(), id@) == Seq::<TaskModel>::empty());
            assert(kept.deep_view() + Seq::<TaskModel>::empty() =~= kept.deep_view());
        }
        *todos = kept;
    }
}

} // verus!
