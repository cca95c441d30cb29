//! What holds of the operations taken together, stated over the entries
//! that a map stands for.

use crate::map::IdMap;
use crate::model::{
    entries_equal, first_free, insert_all, insert_ids, is_first_free, lemma_first_free_is,
    retained,
};
use vstd::prelude::*;
use vstd::std_specs::cmp::PartialEqSpec;

verus! {

/// A set whose identifiers all lie below a bound that is itself an
/// identifier has a smallest free identifier, and it is at most the bound.
pub proof fn lemma_first_free_exists(occupied: Set<usize>, bound: usize)
    requires
        forall|id: usize| occupied.contains(id) ==> id < bound,
    ensures
        is_first_free(occupied, first_free(occupied)),
        first_free(occupied) <= bound,
{
    lemma_scan(occupied, 0, bound);
    let id = choose|id: usize| is_first_free(occupied, id) && id <= bound;
    lemma_first_free_is(occupied, id);
}

/// The search behind `lemma_first_free_exists`: with everything below
/// `from` occupied, a free identifier turns up between `from` and `bound`.
proof fn lemma_scan(occupied: Set<usize>, from: usize, bound: usize)
    requires
        forall|id: usize| occupied.contains(id) ==> id < bound,
        forall|id: usize| id < from ==> occupied.contains(id),
        from <= bound,
    ensures
        exists|id: usize| is_first_free(occupied, id) && id <= bound,
    decreases bound - from,
{
    if !occupied.contains(from) {
        assert(is_first_free(occupied, from));
    } else {
        lemma_scan(occupied, (from + 1) as usize, bound);
    }
}

/// Round trip. After a run of insertions, the identifier that each
/// insertion returned leads to the value that it put in: the identifiers
/// are distinct, in the order of the values, and what the map held before
/// is still there.
pub proof fn lemma_round_trip<T>(m: Map<usize, T>, vals: Seq<T>, bound: usize)
    requires
        forall|id: usize| m.dom().contains(id) ==> id < bound,
        bound + vals.len() <= usize::MAX,
    ensures
        insert_ids(m, vals).len() == vals.len(),
        forall|k: int|
            0 <= k < vals.len() ==> !m.dom().contains(#[trigger] insert_ids(m, vals)[k])
                && insert_all(m, vals).dom().contains(insert_ids(m, vals)[k]) && insert_all(
                m,
                vals,
            )[insert_ids(m, vals)[k]] == vals[k],
        forall|j: int, k: int|
            0 <= j < k < vals.len() ==> insert_ids(m, vals)[j] != insert_ids(m, vals)[k],
        forall|id: usize| #[trigger]
            m.dom().contains(id) ==> insert_all(m, vals).dom().contains(id) && insert_all(
                m,
                vals,
            )[id] == m[id],
        forall|id: usize| #[trigger]
            insert_all(m, vals).dom().contains(id) ==> id < bound + vals.len(),
    decreases vals.len(),
{
    if vals.len() > 0 {
        lemma_first_free_exists(m.dom(), bound);
        let id = first_free(m.dom());
        let next = m.insert(id, vals[0]);
        let rest = vals.skip(1);
        lemma_round_trip(next, rest, (bound + 1) as usize);
        let ids = insert_ids(m, vals);
        assert(ids =~= seq![id] + insert_ids(next, rest));
        assert(insert_all(m, vals) == insert_all(next, rest));
        assert forall|k: int| 0 <= k < vals.len() implies !m.dom().contains(#[trigger] ids[k])
            && insert_all(m, vals).dom().contains(ids[k]) && insert_all(m, vals)[ids[k]]
            == vals[k] by {
            if k > 0 {
                assert(ids[k] == insert_ids(next, rest)[k - 1]);
                assert(rest[k - 1] == vals[k]);
                assert(!next.dom().contains(insert_ids(next, rest)[k - 1]));
            } else {
                assert(ids[0] == id);
                assert(next.dom().contains(id));
                assert(next[id] == vals[0]);
            }
        }
        assert forall|j: int, k: int| 0 <= j < k < vals.len() implies ids[j] != ids[k] by {
            assert(ids[k] == insert_ids(next, rest)[k - 1]);
            if j > 0 {
                assert(ids[j] == insert_ids(next, rest)[j - 1]);
            } else {
                assert(next.dom().contains(id));
            }
        }
        assert forall|id2: usize| #[trigger] m.dom().contains(id2) implies insert_all(
            m,
            vals,
        ).dom().contains(id2) && insert_all(m, vals)[id2] == m[id2] by {
            assert(next.dom().contains(id2));
            assert(id2 != id);
            assert(next[id2] == m[id2]);
        }
    } else {
        assert(insert_all(m, vals) == m);
    }
}

/// Into a map whose identifiers are exactly those below `from`, a run of
/// insertions puts its values under `from`, `from + 1`, and so on: into an
/// empty map, under 0, 1, 2 and so on.
pub proof fn lemma_dense_inserts<T>(m: Map<usize, T>, vals: Seq<T>, from: usize)
    requires
        forall|id: usize| m.dom().contains(id) <==> id < from,
        from + vals.len() <= usize::MAX,
    ensures
        insert_ids(m, vals).len() == vals.len(),
        forall|k: int| 0 <= k < vals.len() ==> #[trigger] insert_ids(m, vals)[k] == from + k,
        forall|id: usize| #[trigger]
            insert_all(m, vals).dom().contains(id) <==> id < from + vals.len(),
    decreases vals.len(),
{
    if vals.len() > 0 {
        assert(is_first_free(m.dom(), from));
        lemma_first_free_is(m.dom(), from);
        let next = m.insert(from, vals[0]);
        let rest = vals.skip(1);
        lemma_dense_inserts(next, rest, (from + 1) as usize);
        let ids = insert_ids(m, vals);
        assert(ids =~= seq![from] + insert_ids(next, rest));
        assert(insert_all(m, vals) == insert_all(next, rest));
        assert forall|k: int| 0 <= k < vals.len() implies #[trigger] ids[k] == from + k by {
            if k > 0 {
                assert(ids[k] == insert_ids(next, rest)[k - 1]);
            }
        }
    } else {
        assert(insert_all(m, vals) == m);
    }
}

/// Identifier reuse. When `k` is in use and no identifier below `k` is
/// free, then once `k` has been removed it is the smallest free identifier,
/// the one that the next insertion returns. (Where an identifier below `k`
/// is free, the next insertion returns the smallest such one instead.)
pub proof fn lemma_id_reuse<T>(m: Map<usize, T>, k: usize)
    requires
        m.dom().contains(k),
        forall|id: usize| id < k ==> m.dom().contains(id),
    ensures
        is_first_free(m.remove(k).dom(), k),
        first_free(m.remove(k).dom()) == k,
{
    assert(is_first_free(m.remove(k).dom(), k));
    lemma_first_free_is(m.remove(k).dom(), k);
}

/// Removing an identifier that is in use moves the smallest free
/// identifier down to it, or leaves it where it was if that is lower.
pub proof fn lemma_remove_lowers_cursor<T>(m: Map<usize, T>, cursor: usize, k: usize)
    requires
        is_first_free(m.dom(), cursor),
        m.dom().contains(k),
    ensures
        is_first_free(
            m.remove(k).dom(),
            if k < cursor {
                k
            } else {
                cursor
            },
        ),
{
}

/// Equality, first half. Two maps that came to be by the same insertions,
/// in the same order, are equal, provided that `==` on `T` holds between
/// every value and itself.
pub proof fn lemma_same_inserts_equal<T: PartialEq>(a: IdMap<T>, b: IdMap<T>, vals: Seq<T>)
    requires
        a.wf(),
        b.wf(),
        a@ == insert_all(Map::<usize, T>::empty(), vals),
        b@ == insert_all(Map::<usize, T>::empty(), vals),
        forall|v: T| #[trigger] v.eq_spec(&v),
    ensures
        a.eq_spec(&b),
{
    assert(entries_equal(a@, b@));
    crate::equality::lemma_eq_spec(a, b);
}

/// Equality, second half. Of two equal maps, take an entry out of one: the
/// two are no longer equal.
pub proof fn lemma_remove_breaks_equality<T: PartialEq>(
    a: IdMap<T>,
    b: IdMap<T>,
    less: IdMap<T>,
    k: usize,
)
    requires
        a.wf(),
        b.wf(),
        less.wf(),
        a.eq_spec(&b),
        a@.dom().contains(k),
        less@ == a@.remove(k),
    ensures
        !less.eq_spec(&b),
        !b.eq_spec(&less),
{
    crate::equality::lemma_eq_spec(a, b);
    crate::equality::lemma_eq_spec(less, b);
    crate::equality::lemma_eq_spec(b, less);
    assert(b@.dom().contains(k));
    assert(!less@.dom().contains(k));
}

/// Every question to `pred` has one answer.
pub open spec fn decided<T, F: FnMut(usize, &T) -> bool>(pred: F) -> bool {
    forall|id: usize, val: T, yes: bool, no: bool|
        #![trigger call_ensures(pred, (id, &val), yes), call_ensures(pred, (id, &val), no)]
        call_ensures(pred, (id, &val), yes) && call_ensures(pred, (id, &val), no) ==> yes == no
}

/// Retaining twice is retaining once: with a predicate that gives every
/// question one answer, a second `retain` removes nothing.
pub proof fn lemma_retain_idempotent<T, F: FnMut(usize, &T) -> bool>(
    before: Map<usize, T>,
    once: Map<usize, T>,
    twice: Map<usize, T>,
    pred: F,
)
    requires
        retained(before, once, pred),
        retained(once, twice, pred),
        decided::<T, F>(pred),
    ensures
        twice == once,
{
    assert forall|id: usize| once.dom().contains(id) implies twice.dom().contains(id) by {
        assert(before.dom().contains(id));
        assert(call_ensures(pred, (id, &before[id]), true));
        assert(call_ensures(pred, (id, &once[id]), twice.dom().contains(id)));
    }
    assert(twice =~= once);
}

} // verus!
