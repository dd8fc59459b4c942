use vstd::prelude::*;

use crate::todo::TodoView;

verus! {

/// The ids of `s` are strictly increasing: the stored order is the
/// deterministic "ascending id" order, and in particular every id
/// occurs at most once.
pub open spec fn ids_strictly_sorted(s: Seq<TodoView>) -> bool {
    forall|i: int, j: int|
        #![trigger s[i].id, s[j].id]
        0 <= i < j < s.len() ==> s[i].id < s[j].id
}

/// Index of the first item of `s` whose id is `id`, or -1 when no item
/// carries that id.
pub open spec fn index_of_id(s: Seq<TodoView>, id: int) -> int
    decreases s.len(),
{
    if s.len() == 0 {
        -1
    } else if s[0].id == id {
        0
    } else if index_of_id(s.drop_first(), id) == -1 {
        -1
    } else {
        index_of_id(s.drop_first(), id) + 1
    }
}

/// Some item of `s` carries the id `id`.
pub open spec fn has_id(s: Seq<TodoView>, id: int) -> bool {
    index_of_id(s, id) != -1
}

/// `t` with its `completed` flag flipped; every other field kept.
pub open spec fn flip_completed(t: TodoView) -> TodoView {
    TodoView { completed: !t.completed, ..t }
}

/// The store's contents after toggling the item with id `id`: that
/// item's `completed` flag is flipped in place, and nothing else moves.
/// With no such item the contents are unchanged.
pub open spec fn toggle_model(s: Seq<TodoView>, id: int) -> Seq<TodoView> {
    if has_id(s, id) {
        s.update(index_of_id(s, id), flip_completed(s[index_of_id(s, id)]))
    } else {
        s
    }
}

/// The store's contents after deleting the item with id `id`: that item
/// is removed, the rest keep their order. With no such item the
/// contents are unchanged, which makes deletion a silent no-op there.
pub open spec fn remove_id_model(s: Seq<TodoView>, id: int) -> Seq<TodoView> {
    if has_id(s, id) {
        s.remove(index_of_id(s, id))
    } else {
        s
    }
}

/// Rows handed back by the datastore from which a store may be rebuilt:
/// ids start at 1, come in strictly ascending order, and the largest
/// leaves room for at least one further assignment.
pub open spec fn rows_well_formed(s: Seq<TodoView>) -> bool {
    &&& ids_strictly_sorted(s)
    &&& forall|i: int| 0 <= i < s.len() ==> 1 <= #[trigger] s[i].id
    &&& s.len() > 0 ==> s[s.len() - 1].id < i64::MAX as int
}

/// What `index_of_id` means pointwise: a found index lies in bounds,
/// carries the id, and is the first to do so; -1 means the id is absent.
pub proof fn lemma_index_of_id(s: Seq<TodoView>, id: int)
    ensures
        has_id(s, id) ==> {
            let i = index_of_id(s, id);
            &&& 0 <= i < s.len()
            &&& s[i].id == id
            &&& forall|k: int| 0 <= k < i ==> #[trigger] s[k].id != id
        },
        !has_id(s, id) ==> forall|k: int| 0 <= k < s.len() ==> #[trigger] s[k].id != id,
    decreases s.len(),
{
    if s.len() == 0 {
    } else if s[0].id == id {
    } else {
        let st = s.drop_first();
        lemma_index_of_id(st, id);
        if index_of_id(st, id) == -1 {
            assert forall|k: int| 0 <= k < s.len() implies #[trigger] s[k].id != id by {
                if k > 0 {
                    assert(st[k - 1] == s[k]);
                    assert(st[k - 1].id != id);
                }
            }
        } else {
            let i = index_of_id(s, id);
            assert(i == index_of_id(st, id) + 1);
            assert(st[i - 1] == s[i]);
            assert(s[i].id == id);
            assert forall|k: int| 0 <= k < i implies #[trigger] s[k].id != id by {
                if k > 0 {
                    assert(st[k - 1] == s[k]);
                    assert(st[k - 1].id != id);
                }
            }
        }
    }
}

/// An index that carries the id pins `index_of_id` down when the ids of
/// `s` are strictly sorted: the occurrence is unique.
pub proof fn lemma_index_of_id_unique(s: Seq<TodoView>, id: int, i: int)
    requires
        ids_strictly_sorted(s),
        0 <= i < s.len(),
        s[i].id == id,
    ensures
        index_of_id(s, id) == i,
{
    lemma_index_of_id(s, id);
    let j = index_of_id(s, id);
    if j < i && j >= 0 {
        assert(s[j].id < s[i].id);
    }
    if j > i {
        assert(s[i].id < s[j].id);
    }
}

/// `index_of_id` looks only at the ids: a pointwise id-preserving
/// rewrite of `s` leaves it unchanged.
pub proof fn lemma_index_of_id_same_ids(s1: Seq<TodoView>, s2: Seq<TodoView>, id: int)
    requires
        s1.len() == s2.len(),
        forall|k: int| 0 <= k < s1.len() ==> #[trigger] s1[k].id == s2[k].id,
    ensures
        index_of_id(s1, id) == index_of_id(s2, id),
    decreases s1.len(),
{
    if s1.len() > 0 {
        let t1 = s1.drop_first();
        let t2 = s2.drop_first();
        assert(s1[0].id == s2[0].id);
        assert forall|k: int| 0 <= k < t1.len() implies #[trigger] t1[k].id == t2[k].id by {
            assert(t1[k] == s1[k + 1]);
            assert(t2[k] == s2[k + 1]);
            assert(s1[k + 1].id == s2[k + 1].id);
        }
        lemma_index_of_id_same_ids(t1, t2, id);
    }
}

/// Toggling the same id twice restores the contents exactly as they were:
/// ToggleCompleted is involutive, and no field but `completed` ever
/// moves.
pub proof fn lemma_toggle_involutive(s: Seq<TodoView>, id: int)
    ensures
        toggle_model(toggle_model(s, id), id) == s,
{
    if has_id(s, id) {
        lemma_index_of_id(s, id);
        let i = index_of_id(s, id);
        let s1 = s.update(i, flip_completed(s[i]));
        assert forall|k: int| 0 <= k < s.len() implies #[trigger] s[k].id == s1[k].id by {
        }
        lemma_index_of_id_same_ids(s, s1, id);
        assert(toggle_model(s1, id) =~= s);
    }
}

/// Deleting the same id twice is the same as deleting it once, when
/// each id occurs at most once: Delete is idempotent, and the second
/// call succeeds silently.
pub proof fn lemma_delete_idempotent(s: Seq<TodoView>, id: int)
    requires
        ids_strictly_sorted(s),
    ensures
        remove_id_model(remove_id_model(s, id), id) == remove_id_model(s, id),
{
    if has_id(s, id) {
        lemma_index_of_id(s, id);
        let i = index_of_id(s, id);
        let s1 = s.remove(i);
        lemma_index_of_id(s1, id);
        if has_id(s1, id) {
            let j = index_of_id(s1, id);
            if j < i {
                assert(s1[j] == s[j]);
                lemma_index_of_id_unique(s, id, j);
            } else {
                assert(s1[j] == s[j + 1]);
                lemma_index_of_id_unique(s, id, j + 1);
            }
        }
    }
}

/// After a deletion the contents hold exactly the items that do not
/// carry the deleted id: nothing else is lost and nothing is
/// duplicated, and the ascending id order is kept.
#[verifier::rlimit(50)]
pub proof fn lemma_delete_membership(s: Seq<TodoView>, id: int)
    requires
        ids_strictly_sorted(s),
    ensures
        forall|t: TodoView|
            #[trigger] remove_id_model(s, id).contains(t) <==> s.contains(t) && t.id != id,
        ids_strictly_sorted(remove_id_model(s, id)),
{
    lemma_index_of_id(s, id);
    let r = remove_id_model(s, id);
    if has_id(s, id) {
        let i = index_of_id(s, id);
        assert forall|t: TodoView| #[trigger] r.contains(t) implies s.contains(t) && t.id != id by {
            let k = choose|k: int| 0 <= k < r.len() && r[k] == t;
            if k < i {
                assert(r[k] == s[k]);
                assert(s[k] == t);
                if k < i {
                    assert(s[k].id < s[i].id);
                }
            } else {
                assert(r[k] == s[k + 1]);
                assert(s[k + 1] == t);
                assert(s[i].id < s[k + 1].id);
            }
        }
        assert forall|t: TodoView| s.contains(t) && t.id != id implies #[trigger] r.contains(t) by {
            let k = choose|k: int| 0 <= k < s.len() && s[k] == t;
            assert(s[k].id != s[i].id);
            if k < i {
                assert(r[k] == s[k]);
                assert(0 <= k < r.len() && r[k] == t);
            } else {
                assert(r[k - 1] == s[k]);
                assert(0 <= k - 1 < r.len() && r[k - 1] == t);
            }
        }
        assert forall|p: int, q: int|
            #![trigger r[p].id, r[q].id]
            0 <= p < q < r.len() implies r[p].id < r[q].id by {
            if q < i {
                assert(r[p] == s[p] && r[q] == s[q]);
            } else if p >= i {
                assert(r[p] == s[p + 1] && r[q] == s[q + 1]);
            } else {
                assert(r[p] == s[p] && r[q] == s[q + 1]);
            }
        }
    } else {
        assert forall|t: TodoView| #[trigger] r.contains(t) implies s.contains(t) && t.id != id by {
            let k = choose|k: int| 0 <= k < s.len() && s[k] == t;
            assert(s[k].id != id);
        }
    }
}

} // verus!
