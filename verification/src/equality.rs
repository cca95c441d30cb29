//! What `==` means on maps.

use crate::map::IdMap;
use crate::model::{entries_equal, slot_eq};
use crate::occupancy::{iter_ids, iter_next, set_eq, set_ids, set_iter};
use vstd::prelude::*;
use vstd::std_specs::cmp::PartialEqSpec;

verus! {

/// Whether both runs of slots hold a value at index `id` and the two values
/// are equal. A slot that is missing or empty on either side is equal to
/// nothing.
fn same_slot<T: PartialEq>(a: &Vec<Option<T>>, b: &Vec<Option<T>>, id: usize) -> (r: bool)
    ensures
        T::obeys_eq_spec() ==> r == slot_eq(a@, b@, id),
{
    if id < a.len() && id < b.len() {
        match (&a[id], &b[id]) {
            (Some(x), Some(y)) => *x == *y,
            _ => false,
        }
    } else {
        false
    }
}

impl<T: PartialEq> PartialEq for IdMap<T> {
    /// Two maps are equal if the same identifiers are in use in both and the
    /// values under each identifier are equal. How many empty slots each map
    /// has does not matter.
    ///
    /// The signature leaves no place to ask for valid operands, so the
    /// comparison is written for every state; `lemma_eq_spec` says what it
    /// comes to on valid ones.
    fn eq(&self, other: &Self) -> (r: bool) {
        proof {
            self.lemma_state();
            other.lemma_state();
        }
        if !set_eq(&self.ids, &other.ids) {
            return false;
        }
        let mut it = set_iter(&self.ids);
        let ghost all = iter_ids(it);
        let ghost mut done: int = 0;
        proof {
            self.lemma_state();
            other.lemma_state();
        }
        loop
            invariant
                self.slots() == self.values@,
                other.slots() == other.values@,
                self.occupancy() == set_ids(self.ids),
                other.occupancy() == set_ids(other.ids),
                self.occupancy() == other.occupancy(),
                crate::model::lists(all, set_ids(self.ids)),
                0 <= done <= all.len(),
                iter_ids(it) == all.skip(done),
                T::obeys_eq_spec() ==> forall|k: int|
                    0 <= k < done ==> slot_eq(self.values@, other.values@, all[k]),
            decreases all.len() - done,
        {
            match iter_next(&mut it) {
                Some(id) => {
                    assert(all.skip(done)[0] == id);
                    assert(all.contains(id));
                    if !same_slot(&self.values, &other.values, id) {
                        assert(self.occupancy().contains(id));
                        return false;
                    }
                    proof {
                        done = done + 1;
                        assert(all.skip(done - 1).skip(1) =~= all.skip(done));
                    }
                },
                None => {
                    proof {
                        assert forall|id: usize|
                            T::obeys_eq_spec() && set_ids(self.ids).contains(id) implies slot_eq(
                            self.values@,
                            other.values@,
                            id,
                        ) by {
                            assert(all.contains(id));
                        }
                    }
                    return true;
                },
            }
        }
    }
}

impl<T: PartialEq> vstd::std_specs::cmp::PartialEqSpecImpl for IdMap<T> {
    open spec fn obeys_eq_spec() -> bool {
        T::obeys_eq_spec()
    }

    open spec fn eq_spec(&self, other: &Self) -> bool {
        &&& self.occupancy() == other.occupancy()
        &&& forall|id: usize| #[trigger]
            self.occupancy().contains(id) ==> slot_eq(self.slots(), other.slots(), id)
    }
}

/// On valid maps `==` compares the entries: the same identifiers, and under
/// each identifier equal values.
pub proof fn lemma_eq_spec<T: PartialEq>(a: IdMap<T>, b: IdMap<T>)
    requires
        a.wf(),
        b.wf(),
    ensures
        a.eq_spec(&b) == entries_equal(a@, b@),
{
    a.lemma_invariant();
    b.lemma_invariant();
    if a.eq_spec(&b) {
        assert forall|id: usize| #[trigger] a@.dom().contains(id) implies a@[id].eq_spec(
            &b@[id],
        ) by {
            assert(slot_eq(a.slots(), b.slots(), id));
        }
    }
    if entries_equal(a@, b@) {
        assert forall|id: usize| #[trigger] a.occupancy().contains(id) implies slot_eq(
            a.slots(),
            b.slots(),
            id,
        ) by {
            assert(a@.dom().contains(id));
            assert(b@.dom().contains(id));
        }
    }
}

} // verus!
