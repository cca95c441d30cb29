//! The mathematical model that the contracts of this crate are stated over.

use vstd::prelude::*;
use vstd::std_specs::cmp::PartialEqSpec;

verus! {

/// `id` is the smallest identifier that `occupied` does not hold.
pub open spec fn is_first_free(occupied: Set<usize>, id: usize) -> bool {
    &&& !occupied.contains(id)
    &&& forall|i: usize| i < id ==> occupied.contains(i)
}

/// The smallest identifier that `occupied` does not hold, where there is
/// one.
pub open spec fn first_free(occupied: Set<usize>) -> usize {
    choose|id: usize| is_first_free(occupied, id)
}

/// A set has at most one smallest free identifier.
pub proof fn lemma_first_free_unique(occupied: Set<usize>, a: usize, b: usize)
    requires
        is_first_free(occupied, a),
        is_first_free(occupied, b),
    ensures
        a == b,
{
    if a < b {
        assert(occupied.contains(a));
    }
    if b < a {
        assert(occupied.contains(b));
    }
}

/// Where `id` is the smallest free identifier, `first_free` names it.
pub proof fn lemma_first_free_is(occupied: Set<usize>, id: usize)
    requires
        is_first_free(occupied, id),
    ensures
        first_free(occupied) == id,
{
    lemma_first_free_unique(occupied, id, first_free(occupied));
}

/// The entries after each of `vals` in turn has been put under the smallest
/// identifier that was free at that moment.
pub open spec fn insert_all<T>(m: Map<usize, T>, vals: Seq<T>) -> Map<usize, T>
    decreases vals.len(),
{
    if vals.len() == 0 {
        m
    } else {
        insert_all(m.insert(first_free(m.dom()), vals[0]), vals.skip(1))
    }
}

/// The identifiers under which `insert_all` puts each of `vals`.
pub open spec fn insert_ids<T>(m: Map<usize, T>, vals: Seq<T>) -> Seq<usize>
    decreases vals.len(),
{
    if vals.len() == 0 {
        Seq::empty()
    } else {
        seq![first_free(m.dom())] + insert_ids(
            m.insert(first_free(m.dom()), vals[0]),
            vals.skip(1),
        )
    }
}

/// The entries after each pair of `pairs` in turn has been put into `m`, a
/// later pair replacing an earlier one with the same identifier.
pub open spec fn put_all<T>(m: Map<usize, T>, pairs: Seq<(usize, T)>) -> Map<usize, T>
    decreases pairs.len(),
{
    if pairs.len() == 0 {
        m
    } else {
        put_all(m.insert(pairs[0].0, pairs[0].1), pairs.skip(1))
    }
}

/// Every element of `ids` is smaller than the ones that follow it.
pub open spec fn ascending(ids: Seq<usize>) -> bool {
    forall|i: int, j: int| 0 <= i < j < ids.len() ==> ids[i] < ids[j]
}

/// The first of `ids`, if there is one.
pub open spec fn head(ids: Seq<usize>) -> Option<usize> {
    if ids.len() > 0 {
        Some(ids[0])
    } else {
        None
    }
}

/// What follows the first of `ids`.
pub open spec fn tail(ids: Seq<usize>) -> Seq<usize> {
    if ids.len() > 0 {
        ids.skip(1)
    } else {
        ids
    }
}

/// `ids` holds exactly the elements of `set`, each once, smallest first.
pub open spec fn lists(ids: Seq<usize>, set: Set<usize>) -> bool {
    &&& ascending(ids)
    &&& forall|id: usize| set.contains(id) <==> ids.contains(id)
}

/// The slot at index `id` holds a value.
pub open spec fn live<T>(slots: Seq<Option<T>>, id: usize) -> bool {
    id < slots.len() && slots[id as int] is Some
}

/// The entries that a run of slots stands for: one for each slot with a value,
/// under the slot's index.
pub open spec fn slots_map<T>(slots: Seq<Option<T>>) -> Map<usize, T> {
    Map::new(|id: usize| live(slots, id), |id: usize| slots[id as int]->0)
}

/// The entries that a run of slots stands for when its first slot belongs
/// to the identifier `offset`.
pub open spec fn window_map<T>(offset: nat, window: Seq<Option<T>>) -> Map<usize, T> {
    Map::new(
        |id: usize| offset <= id && id - offset < window.len() && window[id - offset] is Some,
        |id: usize| window[id - offset]->0,
    )
}

/// Two runs of slots have values at the same indices.
pub open spec fn same_shape<T>(a: Seq<Option<T>>, b: Seq<Option<T>>) -> bool {
    &&& a.len() == b.len()
    &&& forall|i: int| 0 <= i < a.len() ==> (a[i] is Some <==> b[i] is Some)
}

/// Both runs of slots hold a value at index `id`, and the two values are
/// equal as `==` on `T` has it.
pub open spec fn slot_eq<T: PartialEq>(a: Seq<Option<T>>, b: Seq<Option<T>>, id: usize) -> bool {
    &&& live(a, id)
    &&& live(b, id)
    &&& (a[id as int]->0).eq_spec(&b[id as int]->0)
}

/// Two maps have the same identifiers and, under each, values that are equal
/// as `==` on `T` has it.
pub open spec fn entries_equal<T: PartialEq>(a: Map<usize, T>, b: Map<usize, T>) -> bool {
    &&& a.dom() == b.dom()
    &&& forall|id: usize| #[trigger] a.dom().contains(id) ==> a[id].eq_spec(&b[id])
}

/// `after` is what is left of `before` once `pred` has been asked about
/// every entry: the entries for which it answered `true`, unchanged.
pub open spec fn retained<T, F: FnMut(usize, &T) -> bool>(
    before: Map<usize, T>,
    after: Map<usize, T>,
    pred: F,
) -> bool {
    &&& forall|id: usize| #[trigger]
        after.dom().contains(id) ==> before.dom().contains(id) && after[id] == before[id]
    &&& forall|id: usize| #[trigger]
        before.dom().contains(id) ==> call_ensures(
            pred,
            (id, &before[id]),
            after.dom().contains(id),
        )
}

/// There is only one way to list a set in ascending order.
pub proof fn lemma_lists_unique(a: Seq<usize>, b: Seq<usize>, set: Set<usize>)
    requires
        lists(a, set),
        lists(b, set),
    ensures
        a == b,
    decreases a.len(),
{
    if a.len() == 0 {
        if b.len() > 0 {
            assert(b.contains(b[0]));
            assert(a.contains(b[0]));
        }
        assert(a =~= b);
    } else {
        assert(a.contains(a[0]));
        assert(b.contains(a[0]));
        let k = choose|k: int| 0 <= k < b.len() && b[k] == a[0];
        assert(b.contains(b[0]));
        assert(a.contains(b[0]));
        let l = choose|l: int| 0 <= l < a.len() && a[l] == b[0];
        assert(k == 0);
        let rest = set.remove(a[0]);
        assert forall|id: usize| rest.contains(id) <==> a.skip(1).contains(id) by {
            if rest.contains(id) {
                let i = choose|i: int| 0 <= i < a.len() && a[i] == id;
                assert(a.skip(1)[i - 1] == id);
            }
            if a.skip(1).contains(id) {
                let i = choose|i: int| 0 <= i < a.skip(1).len() && a.skip(1)[i] == id;
                assert(a[i + 1] == id);
                assert(a.contains(id));
            }
        }
        assert forall|id: usize| rest.contains(id) <==> b.skip(1).contains(id) by {
            if rest.contains(id) {
                let i = choose|i: int| 0 <= i < b.len() && b[i] == id;
                assert(b.skip(1)[i - 1] == id);
            }
            if b.skip(1).contains(id) {
                let i = choose|i: int| 0 <= i < b.skip(1).len() && b.skip(1)[i] == id;
                assert(b[i + 1] == id);
                assert(b.contains(id));
            }
        }
        lemma_lists_unique(a.skip(1), b.skip(1), rest);
        assert(a =~= seq![a[0]] + a.skip(1));
        assert(b =~= seq![b[0]] + b.skip(1));
    }
}

} // verus!
