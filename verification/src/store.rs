use vstd::prelude::*;

use crate::clock;
use crate::model::{
    flip_completed, has_id, ids_strictly_sorted, index_of_id, lemma_delete_membership,
    lemma_index_of_id, lemma_index_of_id_unique, remove_id_model, rows_well_formed, toggle_model,
};
use crate::todo::{Todo, TodoError, TodoView};

verus! {

/// The views of a sequence of items, in the same order.
pub open spec fn views_of(rows: Seq<Todo>) -> Seq<TodoView> {
    rows.map_values(|t: Todo| t@)
}

/// The todo collection: every current row of the `todos` table, held
/// in ascending id order, together with the id the next insertion will
/// receive.
pub struct TodoStore {
    todos: Vec<Todo>,
    next_id: i64,
}

impl View for TodoStore {
    type V = Seq<TodoView>;

    closed spec fn view(&self) -> Seq<TodoView> {
        views_of(self.todos@)
    }
}

impl TodoStore {
    /// The id the next created item will receive; ids are assigned
    /// monotonically from 1 and never reused.
    pub closed spec fn spec_next_id(&self) -> int {
        self.next_id as int
    }

    /// The store's invariant: ids start at 1, are strictly increasing
    /// in storage order, and all lie below the next id to be assigned.
    pub closed spec fn wf(&self) -> bool {
        &&& 1 <= self.next_id
        &&& forall|i: int| 0 <= i < self@.len() ==> 1 <= #[trigger] self@[i].id < self.next_id
        &&& ids_strictly_sorted(self@)
    }

    /// A well-formed store keeps its items in strictly ascending id
    /// order below the next id, so no id — and hence no item — occurs
    /// twice.
    pub proof fn lemma_wf_sorted(&self)
        requires
            self.wf(),
        ensures
            ids_strictly_sorted(self@),
            forall|i: int|
                0 <= i < self@.len() ==> 1 <= #[trigger] self@[i].id < self.spec_next_id(),
            forall|i: int, j: int|
                #![trigger self@[i].id, self@[j].id]
                0 <= i < j < self@.len() ==> self@[i].id != self@[j].id,
    {
    }

    /// An empty store; the first item created will receive id 1.
    pub fn new() -> (s: TodoStore)
        ensures
            s.wf(),
            s@ == Seq::<TodoView>::empty(),
            s.spec_next_id() == 1,
    {
        let s = TodoStore { todos: Vec::new(), next_id: 1 };
        proof {
            assert(s@ =~= Seq::<TodoView>::empty());
        }
        s
    }

    /// Insert a new item: it receives the next id, the given creation
    /// time (Unix seconds), a false `completed` flag and the caller's
    /// title — an empty title is accepted — and is appended at the end
    /// of the stored order. The returned item is exactly the stored
    /// one, and its id differs from every id already present.
    pub fn create_with_timestamp(&mut self, title: String, now: i64) -> (t: Todo)
        requires
            old(self).wf(),
            old(self).spec_next_id() < i64::MAX as int,
        ensures
            final(self).wf(),
            t@.id == old(self).spec_next_id(),
            t@.title == title@,
            t@.completed == false,
            t@.created_at == now as int,
            final(self)@ == old(self)@.push(t@),
            final(self).spec_next_id() == old(self).spec_next_id() + 1,
            forall|k: int| 0 <= k < old(self)@.len() ==> #[trigger] old(self)@[k].id != t@.id,
    {
        let id = self.next_id;
        let stored = Todo { id, title: title.clone(), completed: false, created_at: now };
        let t = Todo { id, title, completed: false, created_at: now };
        self.todos.push(stored);
        self.next_id = id + 1;
        proof {
            assert(self@ =~= old(self)@.push(t@));
        }
        t
    }

    /// Insert a new item stamped with the server clock, never with a
    /// caller-supplied time; everything else is as
    /// `create_with_timestamp`.
    pub fn create(&mut self, title: String) -> (t: Todo)
        requires
            old(self).wf(),
            old(self).spec_next_id() < i64::MAX as int,
        ensures
            final(self).wf(),
            t@.id == old(self).spec_next_id(),
            t@.title == title@,
            t@.completed == false,
            final(self)@ == old(self)@.push(t@),
            final(self).spec_next_id() == old(self).spec_next_id() + 1,
            forall|k: int| 0 <= k < old(self)@.len() ==> #[trigger] old(self)@[k].id != t@.id,
    {
        let now = clock::now_seconds();
        self.create_with_timestamp(title, now)
    }

    /// Every current item, in ascending id order, each exactly once.
    pub fn list(&self) -> (items: &Vec<Todo>)
        ensures
            views_of(items@) == self@,
    {
        &self.todos
    }

    /// The id the next created item will receive; callers that must
    /// not run the id space out check it against the machine limit
    /// before creating.
    pub fn next_id(&self) -> (n: i64)
        ensures
            n as int == self.spec_next_id(),
    {
        self.next_id
    }

    /// How many items the store currently holds.
    pub fn len(&self) -> (n: usize)
        ensures
            n == self@.len(),
    {
        self.todos.len()
    }

    /// Remove the item with the given id, keeping every other item in
    /// its old order; with no such item the store is unchanged and the
    /// call still succeeds, so deletion is a silent no-op on a missing
    /// id.
    pub fn delete(&mut self, id: i64)
        requires
            old(self).wf(),
        ensures
            final(self).wf(),
            final(self)@ == remove_id_model(old(self)@, id as int),
            final(self).spec_next_id() == old(self).spec_next_id(),
    {
        let ghost os = old(self)@;
        let ghost idn = id as int;
        let n = self.todos.len();
        let mut i: usize = 0;
        while i < n
            invariant
                old(self).wf(),
                n == old(self).todos@.len(),
                0 <= i <= n,
                self.todos@ == old(self).todos@,
                self.next_id == old(self).next_id,
                os == old(self)@,
                idn == id as int,
                forall|k: int| 0 <= k < i ==> #[trigger] os[k].id != idn,
            decreases n - i,
        {
            if self.todos[i].id == id {
                proof {
                    assert(os[i as int] == old(self).todos@[i as int]@);
                    assert(os[i as int].id == idn);
                }
                self.todos.remove(i);
                proof {
                    lemma_index_of_id_unique(os, idn, i as int);
                    lemma_delete_membership(os, idn);
                    os.remove_ensures(i as int);
                    assert(self@ =~= os.remove(i as int));
                    assert forall|k: int| 0 <= k < self@.len() implies 1 <= #[trigger] self@[k].id
                        < self.next_id by {
                        assert(remove_id_model(os, idn).contains(self@[k]));
                        let m = choose|m: int| 0 <= m < os.len() && os[m] == self@[k];
                        assert(1 <= os[m].id < old(self).next_id);
                    }
                }
                return ;
            }
            i += 1;
        }
        proof {
            assert(self@ =~= os);
            lemma_index_of_id(os, idn);
        }
    }

    /// Flip the `completed` flag of the item with the given id and hand
    /// back the updated item; its other fields, every other item and
    /// the stored order stay as they were. With no such item the store
    /// is unchanged and the call reports `NotFound`.
    pub fn toggle_completed(&mut self, id: i64) -> (r: Result<Todo, TodoError>)
        requires
            old(self).wf(),
        ensures
            final(self).wf(),
            final(self)@ == toggle_model(old(self)@, id as int),
            final(self).spec_next_id() == old(self).spec_next_id(),
            has_id(old(self)@, id as int) ==> (r matches Ok(t) && t@ == flip_completed(
                old(self)@[index_of_id(old(self)@, id as int)],
            )),
            !has_id(old(self)@, id as int) ==> (r matches Err(e) && e is NotFound),
    {
        let ghost os = old(self)@;
        let ghost idn = id as int;
        let n = self.todos.len();
        let mut i: usize = 0;
        while i < n
            invariant
                old(self).wf(),
                n == old(self).todos@.len(),
                0 <= i <= n,
                self.todos@ == old(self).todos@,
                self.next_id == old(self).next_id,
                os == old(self)@,
                idn == id as int,
                forall|k: int| 0 <= k < i ==> #[trigger] os[k].id != idn,
            decreases n - i,
        {
            if self.todos[i].id == id {
                let flipped = !self.todos[i].completed;
                self.todos[i].completed = flipped;
                let t = Todo {
                    id: self.todos[i].id,
                    title: self.todos[i].title.clone(),
                    completed: self.todos[i].completed,
                    created_at: self.todos[i].created_at,
                };
                proof {
                    assert(os[i as int] == old(self).todos@[i as int]@);
                    assert(os[i as int].id == idn);
                    lemma_index_of_id_unique(os, idn, i as int);
                    assert(t@ == flip_completed(os[i as int]));
                    assert(self@ =~= os.update(i as int, flip_completed(os[i as int])));
                    assert forall|p: int, q: int|
                        #![trigger self@[p].id, self@[q].id]
                        0 <= p < q < self@.len() implies self@[p].id < self@[q].id by {
                        assert(os[p].id < os[q].id);
                    }
                }
                return Ok(t);
            }
            i += 1;
        }
        proof {
            assert(self@ =~= os);
            lemma_index_of_id(os, idn);
        }
        Err(TodoError::NotFound)
    }

    /// Rebuild a store from rows read back from the datastore, given in
    /// the ascending id order List hands them out in. Succeeds exactly
    /// when the rows are well formed — ids at least 1, strictly
    /// increasing, the largest leaving room for a further assignment —
    /// and then holds exactly those rows, with the next id following
    /// the largest; otherwise reports `Initialization`.
    pub fn from_rows(rows: Vec<Todo>) -> (r: Result<TodoStore, TodoError>)
        ensures
            match r {
                Ok(s) => {
                    &&& rows_well_formed(views_of(rows@))
                    &&& s.wf()
                    &&& s@ == views_of(rows@)
                    &&& s.spec_next_id() == if rows@.len() == 0 {
                        1int
                    } else {
                        views_of(rows@)[rows@.len() - 1].id + 1
                    }
                },
                Err(e) => {
                    &&& e is Initialization
                    &&& !rows_well_formed(views_of(rows@))
                },
            },
    {
        let n = rows.len();
        let mut i: usize = 0;
        while i < n
            invariant
                n == rows@.len(),
                0 <= i <= n,
                forall|k: int| 0 <= k < i ==> 1 <= #[trigger] views_of(rows@)[k].id,
                forall|p: int, q: int|
                    #![trigger views_of(rows@)[p].id, views_of(rows@)[q].id]
                    0 <= p < q < i ==> views_of(rows@)[p].id < views_of(rows@)[q].id,
            decreases n - i,
        {
            if rows[i].id < 1 {
                proof {
                    assert(views_of(rows@)[i as int] == rows@[i as int]@);
                    assert(!(1 <= views_of(rows@)[i as int].id));
                    assert(!rows_well_formed(views_of(rows@)));
                }
                return Err(
                    TodoError::Initialization(String::from_str("row id below 1 in datastore")),
                );
            }
            if i > 0 && rows[i - 1].id >= rows[i].id {
                proof {
                    assert(views_of(rows@)[i as int] == rows@[i as int]@);
                    assert(views_of(rows@)[i - 1] == rows@[i - 1]@);
                    assert(!(views_of(rows@)[i - 1].id < views_of(rows@)[i as int].id));
                    assert(!ids_strictly_sorted(views_of(rows@)));
                }
                return Err(
                    TodoError::Initialization(
                        String::from_str("rows not in strictly ascending id order"),
                    ),
                );
            }
            proof {
                let v = views_of(rows@);
                assert(v[i as int] == rows@[i as int]@);
                if i > 0 {
                    assert(v[i - 1] == rows@[i - 1]@);
                    assert(v[i - 1].id < v[i as int].id);
                }
                assert forall|p: int, q: int|
                    #![trigger v[p].id, v[q].id]
                    0 <= p < q < i + 1 implies v[p].id < v[q].id by {
                    if q == i as int && p < i - 1 {
                        assert(v[p].id < v[i - 1].id);
                    }
                }
            }
            i += 1;
        }
        let next_id: i64 = if n == 0 {
            1
        } else {
            let last = rows[n - 1].id;
            if last == i64::MAX {
                proof {
                    assert(views_of(rows@)[n - 1] == rows@[n - 1]@);
                    assert(!(views_of(rows@)[n - 1].id < i64::MAX as int));
                    assert(!rows_well_formed(views_of(rows@)));
                }
                return Err(
                    TodoError::Initialization(String::from_str("id space of the store exhausted")),
                );
            }
            last + 1
        };
        let s = TodoStore { todos: rows, next_id };
        proof {
            let v = views_of(s.todos@);
            assert(n > 0 ==> v[n - 1] == s.todos@[n - 1]@);
            assert forall|k: int| 0 <= k < v.len() implies 1 <= #[trigger] v[k].id
                < next_id as int by {
                if k < n - 1 {
                    assert(v[k].id < v[n - 1].id);
                }
            }
            assert(rows_well_formed(v));
        }
        Ok(s)
    }
}

} // verus!
