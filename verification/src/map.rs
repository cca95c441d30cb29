//! The container itself: its state, what makes a state valid, and the
//! operations that change or query it.

use crate::iter::{Ids, IntoIter, Iter, IterMut, Values, ValuesMut};
use crate::model::{
    insert_all, is_first_free, lemma_first_free_is, lists, live, put_all, same_shape, slots_map,
};
use crate::occupancy::{
    into_iter_ids, iter_ids, iter_next, set_capacity, set_clear, set_clone, set_common,
    set_contains, set_filled, set_ids, set_insert, set_into_iter, set_iter, set_len, set_new,
    set_remove, set_reserve, set_retain, set_room, set_shrink_to_fit, set_subtract,
    set_with_capacity, INLINE_BITS,
};
use crate::storage::{grow, slot_live, slot_mut, slot_ref, vec_shrink_to};
use id_set::IdSet;
use vstd::prelude::*;

verus! {

/// A container that gives each value an identifier of its own.
///
/// A map stands for the entries `self@`, from identifier to value. The
/// values lie in a run of slots, each at the index that is its identifier.
pub struct IdMap<T> {
    /// The identifiers in use.
    pub(crate) ids: IdSet,
    /// The slots. A slot holds a value exactly if its index is in use.
    pub(crate) values: Vec<Option<T>>,
    /// The smallest identifier that is not in use.
    pub(crate) space: usize,
}

impl<T> View for IdMap<T> {
    type V = Map<usize, T>;

    open spec fn view(&self) -> Map<usize, T> {
        slots_map(self.slots())
    }
}

impl<T> IdMap<T> {
    /// The slots behind the map, with and without a value.
    pub closed spec fn slots(&self) -> Seq<Option<T>> {
        self.values@
    }

    /// The identifiers that the map has marked as in use.
    pub closed spec fn occupancy(&self) -> Set<usize> {
        set_ids(self.ids)
    }

    /// The identifier that the map has noted as the next to hand out.
    pub closed spec fn cursor(&self) -> usize {
        self.space
    }

    /// A number of identifiers that the map has been made to have room for,
    /// or asked to have room for. `capacity` returns at least this.
    pub closed spec fn room(&self) -> nat {
        set_room(self.ids)
    }

    /// What holds of every map that this crate hands out: the identifiers
    /// marked as in use are those of the slots with a value, and the cursor
    /// is the smallest identifier not in use.
    pub closed spec fn wf(&self) -> bool {
        &&& forall|id: usize| set_ids(self.ids).contains(id) <==> live(self.values@, id)
        &&& is_first_free(set_ids(self.ids), self.space)
    }

    /// What the names above stand for, for the other files of this crate.
    pub(crate) proof fn lemma_state(self)
        ensures
            self.slots() == self.values@,
            self.occupancy() == set_ids(self.ids),
            self.cursor() == self.space,
            self.wf() == ((forall|id: usize|
                set_ids(self.ids).contains(id) <==> live(self.values@, id)) && is_first_free(
                set_ids(self.ids),
                self.space,
            )),
    {
    }

    /// In a valid map the three parts of the state agree: the occupied
    /// identifiers are those of the entries, the identifiers below the
    /// cursor are all occupied, the cursor is not, and every occupied
    /// identifier lies below the number of slots.
    pub proof fn lemma_invariant(self)
        requires
            self.wf(),
        ensures
            self.occupancy() == self@.dom(),
            self@.dom().finite(),
            forall|id: usize| id < self.cursor() ==> self@.dom().contains(id),
            !self@.dom().contains(self.cursor()),
            is_first_free(self@.dom(), self.cursor()),
            forall|id: usize| self@.dom().contains(id) ==> id < self.slots().len(),
            self.cursor() <= self.slots().len(),
    {
        assert(self.occupancy() =~= self@.dom());
        lemma_bounded_finite(self@.dom(), self.values@.len());
        if self.cursor() > self.slots().len() {
            assert(set_ids(self.ids).contains(self.values@.len() as usize));
        }
    }

    /// Creates an empty map: no entries, no slots, and 0 as the next
    /// identifier.
    pub fn new() -> (m: Self)
        ensures
            m.wf(),
            m@ == Map::<usize, T>::empty(),
            m.slots().len() == 0,
            m.cursor() == 0,
    {
        let m = IdMap { ids: set_new(), values: Vec::new(), space: 0 };
        assert(m@ =~= Map::<usize, T>::empty());
        m
    }

    /// Creates an empty map with room for `cap` values: `capacity`, called
    /// on it, returns `cap` at least.
    pub fn with_capacity(cap: usize) -> (m: Self)
        ensures
            m.wf(),
            m@ == Map::<usize, T>::empty(),
            m.slots().len() == 0,
            m.cursor() == 0,
            m.room() >= cap,
    {
        let m = IdMap { ids: set_with_capacity(cap), values: Vec::with_capacity(cap), space: 0 };
        assert(m@ =~= Map::<usize, T>::empty());
        m
    }

    /// Removes all values from the map. The slots stay, empty, and the next
    /// identifier is 0 again.
    pub fn clear(&mut self)
        requires
            old(self).wf(),
        ensures
            final(self).wf(),
            final(self)@ == Map::<usize, T>::empty(),
            final(self).slots().len() == old(self).slots().len(),
            final(self).cursor() == 0,
    {
        self.drop_values();
        set_clear(&mut self.ids);
        self.space = 0;
        assert(self@ =~= Map::<usize, T>::empty());
    }

    /// Empties the slot of every identifier in use; the slots themselves
    /// stay.
    fn drop_values(&mut self)
        requires
            old(self).wf(),
        ensures
            final(self).ids == old(self).ids,
            final(self).space == old(self).space,
            final(self).values@.len() == old(self).values@.len(),
            forall|i: int| 0 <= i < final(self).values@.len() ==> final(self).values@[i] is None,
    {
        let mut it = set_iter(&self.ids);
        let ghost all = iter_ids(it);
        let ghost mut done: int = 0;
        proof {
            vstd::std_specs::vec::axiom_spec_len(&self.values);
            assert forall|i: int|
                0 <= i < self.values@.len() && self.values@[i] is Some implies exists|k: int|
                0 <= k < all.len() && all[k] == i by {
                assert(live(self.values@, i as usize));
                assert(all.contains(i as usize));
            }
            assert forall|id: usize| all.contains(id) implies id < self.values@.len() by {
                assert(live(self.values@, id));
            }
        }
        loop
            invariant
                self.ids == old(self).ids,
                self.space == old(self).space,
                self.values@.len() == old(self).values@.len(),
                0 <= done <= all.len(),
                iter_ids(it) == all.skip(done),
                forall|id: usize| all.contains(id) ==> id < self.values@.len(),
                forall|i: int|
                    0 <= i < self.values@.len() ==> (self.values@[i] is Some ==> exists|k: int|
                        done <= k < all.len() && all[k] == i),
            ensures
                self.ids == old(self).ids,
                self.space == old(self).space,
                self.values@.len() == old(self).values@.len(),
                forall|i: int| 0 <= i < self.values@.len() ==> self.values@[i] is None,
            decreases all.len() - done,
        {
            match iter_next(&mut it) {
                Some(id) => {
                    assert(all[done] == id);
                    assert(all.contains(id));
                    self.values[id] = None;
                    proof {
                        assert forall|i: int|
                            0 <= i < self.values@.len()
                                && self.values@[i] is Some implies exists|k: int|
                            done + 1 <= k < all.len() && all[k] == i by {
                            let k = choose|k: int| done <= k < all.len() && all[k] == i;
                            assert(k != done);
                        }
                        done = done + 1;
                        assert(all.skip(done - 1).skip(1) =~= all.skip(done));
                    }
                },
                None => {
                    break ;
                },
            }
        }
    }

    /// Returns the identifier that the next call of `insert` will return.
    pub fn next_id(&self) -> (id: usize)
        requires
            self.wf(),
        ensures
            id == self.cursor(),
            is_first_free(self@.dom(), id),
    {
        proof {
            self.lemma_invariant();
        }
        self.space
    }

    /// Returns the number of values in the map.
    pub fn len(&self) -> (n: usize)
        requires
            self.wf(),
        ensures
            n == self@.dom().len(),
            self@.dom().finite(),
    {
        proof {
            self.lemma_invariant();
        }
        set_len(&self.ids)
    }

    /// Returns a number of values that the map has room for. Every
    /// identifier in use lies below it, unless it is `usize::MAX`, and it is
    /// no less than the room that the map was made or asked to have.
    pub fn capacity(&self) -> (c: usize)
        requires
            self.wf(),
        ensures
            forall|id: usize| self@.dom().contains(id) ==> id < c || c == usize::MAX,
            c >= self.room(),
    {
        proof {
            self.lemma_invariant();
        }
        set_capacity(&self.ids)
    }

    /// Makes room for `cap` values. The map holds what it held, slot for
    /// slot, and loses no room. Where `cap` is above `INLINE_BITS` there is
    /// room for `cap` values afterwards; a smaller `cap` leaves the set of
    /// identifiers, whose room `capacity` reports, as it is.
    pub fn reserve(&mut self, cap: usize)
        requires
            old(self).wf(),
        ensures
            final(self).wf(),
            final(self)@ == old(self)@,
            final(self).cursor() == old(self).cursor(),
            final(self).slots() == old(self).slots(),
            final(self).room() >= old(self).room(),
            cap > INLINE_BITS ==> final(self).room() >= cap,
    {
        set_reserve(&mut self.ids, cap);
        self.values.reserve(cap);
    }

    /// Returns the set of identifiers in use.
    pub fn as_set(&self) -> (s: &IdSet)
        requires
            self.wf(),
        ensures
            set_ids(*s) == self@.dom(),
    {
        proof {
            self.lemma_invariant();
        }
        &self.ids
    }

    /// Returns true if the map holds a value under `id`.
    pub fn contains(&self, id: usize) -> (r: bool)
        requires
            self.wf(),
        ensures
            r == self@.dom().contains(id),
    {
        set_contains(&self.ids, id)
    }

    /// Returns the value under `id`, if there is one.
    pub fn get(&self, id: usize) -> (r: Option<&T>)
        requires
            self.wf(),
        ensures
            r == (if self@.dom().contains(id) {
                Some(&self@[id])
            } else {
                None
            }),
    {
        if set_contains(&self.ids, id) {
            self.values[id].as_ref()
        } else {
            None
        }
    }

    /// Returns the value under `id`, if there is one, to be changed in
    /// place.
    pub fn get_mut(&mut self, id: usize) -> (r: Option<&mut T>)
        requires
            old(self).wf(),
        ensures
            final(self).wf(),
            final(self).cursor() == old(self).cursor(),
            match r {
                Some(v) => old(self)@.dom().contains(id) && *v == old(self)@[id] && final(self)@
                    == old(self)@.insert(id, *final(v)),
                None => !old(self)@.dom().contains(id) && final(self)@ == old(self)@,
            },
    {
        if set_contains(&self.ids, id) {
            Some(slot_mut(&mut self.values, id))
        } else {
            None
        }
    }

    /// Puts `val` under the smallest identifier that is not in use, and
    /// returns that identifier.
    pub fn insert(&mut self, val: T) -> (id: usize)
        requires
            old(self).wf(),
        ensures
            final(self).wf(),
            id == old(self).cursor(),
            is_first_free(old(self)@.dom(), id),
            final(self)@ == old(self)@.insert(id, val),
            final(self).slots().len() == (if id < old(self).slots().len() {
                old(self).slots().len()
            } else {
                old(self).slots().len() + 1
            }),
    {
        proof {
            self.lemma_invariant();
        }
        let id = self.space;
        if id == self.values.len() {
            self.values.push(None);
        }
        self.values[id] = Some(val);
        set_insert(&mut self.ids, id);
        self.find_space();
        assert(self@ =~= old(self)@.insert(id, val));
        id
    }

    /// Puts `val` under `id`, and returns the value that was there before,
    /// if there was one.
    pub fn insert_at(&mut self, id: usize, val: T) -> (r: Option<T>)
        requires
            old(self).wf(),
        ensures
            final(self).wf(),
            r == (if old(self)@.dom().contains(id) {
                Some(old(self)@[id])
            } else {
                None
            }),
            final(self)@ == old(self)@.insert(id, val),
            final(self).slots().len() == (if id < old(self).slots().len() {
                old(self).slots().len()
            } else {
                (id + 1) as nat
            }),
    {
        if set_insert(&mut self.ids, id) {
            grow(&mut self.values, id);
            self.values[id] = Some(val);
            if id == self.space {
                self.find_space();
            }
            assert(self@ =~= old(self)@.insert(id, val));
            None
        } else {
            let ghost new = val;
            let mut val = val;
            core::mem::swap(slot_mut(&mut self.values, id), &mut val);
            assert(set_ids(self.ids) =~= set_ids(old(self).ids));
            assert(self@ =~= old(self)@.insert(id, new));
            Some(val)
        }
    }

    /// Takes the value under `id` out of the map and returns it, if there
    /// is one. The identifier is free afterwards.
    pub fn remove(&mut self, id: usize) -> (r: Option<T>)
        requires
            old(self).wf(),
        ensures
            final(self).wf(),
            r == (if old(self)@.dom().contains(id) {
                Some(old(self)@[id])
            } else {
                None
            }),
            final(self)@ == old(self)@.remove(id),
            final(self).cursor() == (if old(self)@.dom().contains(id) && id < old(self).cursor() {
                id
            } else {
                old(self).cursor()
            }),
            final(self).slots().len() == old(self).slots().len(),
    {
        if set_remove(&mut self.ids, id) {
            lower(&mut self.space, id);
            let r = self.values[id].take();
            assert(self@ =~= old(self)@.remove(id));
            r
        } else {
            assert(set_ids(self.ids) =~= set_ids(old(self).ids));
            assert(self@ =~= old(self)@.remove(id));
            None
        }
    }

    /// Returns the value under `id`, to be changed in place. If there is
    /// none, `val` is put there first.
    pub fn get_or_insert(&mut self, id: usize, val: T) -> (r: &mut T)
        requires
            old(self).wf(),
        ensures
            final(self).wf(),
            *r == (if old(self)@.dom().contains(id) {
                old(self)@[id]
            } else {
                val
            }),
            final(self)@ == old(self)@.insert(id, *final(r)),
    {
        let make = || -> (v: T)
            ensures
                v == val,
            { val };
        self.get_or_insert_with(id, make)
    }

    /// Returns the value under `id`, to be changed in place. If there is
    /// none, `f` is called and what it returns is put there first; if there
    /// is one, `f` is not called.
    pub fn get_or_insert_with<F: FnOnce() -> T>(&mut self, id: usize, f: F) -> (r: &mut T)
        requires
            old(self).wf(),
            !old(self)@.dom().contains(id) ==> call_requires(f, ()),
        ensures
            final(self).wf(),
            old(self)@.dom().contains(id) ==> *r == old(self)@[id],
            !old(self)@.dom().contains(id) ==> call_ensures(f, (), *r),
            final(self)@ == old(self)@.insert(id, *final(r)),
    {
        if set_insert(&mut self.ids, id) {
            grow(&mut self.values, id);
            self.values[id] = Some(f());
            if id == self.space {
                self.find_space();
            }
        } else {
            assert(set_ids(self.ids) =~= set_ids(old(self).ids));
        }
        slot_mut(&mut self.values, id)
    }

    /// Removes every identifier that `set` holds from the map, together
    /// with its value.
    pub fn remove_set(&mut self, set: &IdSet)
        requires
            old(self).wf(),
        ensures
            final(self).wf(),
            final(self)@ == old(self)@.remove_keys(set_ids(*set)),
    {
        let common = set_common(&self.ids, set);
        let n: usize = common.len();
        let ghost gone = set_ids(old(self).ids).intersect(set_ids(*set));
        proof {
            assert forall|k: int| 0 <= k < n implies gone.contains(common@[k]) && live(
                old(self).values@,
                common@[k],
            ) by {
                assert(common@.contains(common@[k]));
            }
        }
        if n > 0 {
            // The identifiers come smallest first, so only the first one
            // can lower the cursor.
            lower(&mut self.space, common[0]);
            let mut i: usize = 0;
            while i < n
                invariant
                    i <= n,
                    n == common@.len(),
                    self.ids == old(self).ids,
                    self.space == (if common@[0] < old(self).space {
                        common@[0]
                    } else {
                        old(self).space
                    }),
                    self.values@.len() == old(self).values@.len(),
                    forall|k: int| 0 <= k < n ==> common@[k] < self.values@.len(),
                    forall|k: int| 0 <= k < i ==> self.values@[common@[k] as int] is None,
                    forall|j: int|
                        0 <= j < self.values@.len() ==> self.values@[j] is None
                            || self.values@[j] == old(self).values@[j],
                    forall|j: int|
                        0 <= j < self.values@.len() && self.values@[j] is None && old(
                            self,
                        ).values@[j] is Some ==> exists|k: int| 0 <= k < i && common@[k] == j,
                decreases n - i,
            {
                let id: usize = common[i];
                let ghost before = self.values@;
                self.values[id] = None;
                proof {
                    assert forall|j: int|
                        0 <= j < self.values@.len() && self.values@[j] is None && old(
                            self,
                        ).values@[j] is Some implies exists|k: int|
                        0 <= k < i + 1 && common@[k] == j by {
                        if j == id {
                            assert(common@[i as int] == j);
                        } else {
                            assert(before[j] is None);
                            let k = choose|k: int| 0 <= k < i && common@[k] == j;
                            assert(0 <= k < i + 1 && common@[k] == j);
                        }
                    }
                }
                i = i + 1;
            }
        }
        set_subtract(&mut self.ids, set);
        proof {
            assert forall|id: usize| set_ids(self.ids).contains(id) <==> live(
                self.values@,
                id,
            ) by {
                if live(old(self).values@, id) && !live(self.values@, id) {
                    let k = choose|k: int| 0 <= k < n && common@[k] == id;
                    assert(gone.contains(common@[k]));
                }
                if gone.contains(id) {
                    assert(common@.contains(id));
                    let k = choose|k: int| 0 <= k < common@.len() && common@[k] == id;
                    assert(self.values@[common@[k] as int] is None);
                }
            }
            assert forall|id: usize| id < self.space implies set_ids(self.ids).contains(id) by {
                assert(set_ids(old(self).ids).contains(id));
                if gone.contains(id) {
                    assert(common@.contains(id));
                    let k = choose|k: int| 0 <= k < common@.len() && common@[k] == id;
                    if k > 0 {
                        assert(common@[0] < common@[k]);
                    }
                }
            }
            if n > 0 {
                assert(gone.contains(common@[0]));
            }
            assert(!set_ids(self.ids).contains(self.space));
            let left = old(self)@.remove_keys(set_ids(*set));
            assert forall|id: usize| self@.dom().contains(id) <==> left.dom().contains(id) by {
                assert(self@.dom().contains(id) <==> set_ids(self.ids).contains(id));
                assert(old(self)@.dom().contains(id) <==> set_ids(old(self).ids).contains(id));
            }
            assert forall|id: usize| self@.dom().contains(id) implies self@[id] == left[id] by {
                assert(live(self.values@, id));
                assert(left.dom().contains(id));
                assert(old(self)@.dom().contains(id));
                assert(self.values@[id as int] == old(self).values@[id as int]);
            }
            assert(self@ =~= left);
        }
    }

    /// Asks `pred` about every entry, smallest identifier first, and removes
    /// the entries for which it answers `false`.
    pub fn retain<F: FnMut(usize, &T) -> bool>(&mut self, mut pred: F)
        requires
            old(self).wf(),
            forall|id: usize|
                old(self)@.dom().contains(id) ==> call_requires(pred, (id, &old(self)@[id])),
        ensures
            final(self).wf(),
            crate::model::retained(old(self)@, final(self)@, pred),
    {
        broadcast use vstd::function::axiom_fn_mut_call_ensures;

        let ghost asked = pred;
        let mut it = set_iter(&self.ids);
        let ghost all = iter_ids(it);
        let ghost mut done: int = 0;
        proof {
            assert forall|id: usize| all.contains(id) implies live(self.values@, id) by {
                assert(set_ids(self.ids).contains(id));
            }
            assert forall|k: int| 0 <= k < all.len() implies self.values@[all[k] as int] is Some by {
                assert(all.contains(all[k]));
            }
            assert forall|id: usize| id < self.space implies live(self.values@, id) by {
                assert(set_ids(self.ids).contains(id));
            }
            assert(!set_ids(self.ids).contains(self.space));
        }
        loop
            invariant
                pred == asked,
                self.ids == old(self).ids,
                self.values@.len() == old(self).values@.len(),
                0 <= done <= all.len(),
                iter_ids(it) == all.skip(done),
                lists(all, set_ids(self.ids)),
                forall|id: usize| all.contains(id) ==> live(old(self).values@, id),
                forall|id: usize|
                    old(self)@.dom().contains(id) ==> call_requires(pred, (id, &old(self)@[id])),
                forall|k: int|
                    0 <= k < done ==> call_ensures(
                        pred,
                        (all[k], &old(self)@[all[k]]),
                        self.values@[all[k] as int] is Some,
                    ),
                forall|j: int|
                    0 <= j < self.values@.len() ==> self.values@[j] is None
                        || self.values@[j] == old(self).values@[j],
                forall|k: int| done <= k < all.len() ==> self.values@[all[k] as int] is Some,
                forall|id: usize| id < self.space ==> live(self.values@, id),
                !live(self.values@, self.space),
            ensures
                pred == asked,
                self.ids == old(self).ids,
                self.values@.len() == old(self).values@.len(),
                lists(all, set_ids(self.ids)),
                forall|k: int|
                    0 <= k < all.len() ==> call_ensures(
                        pred,
                        (all[k], &old(self)@[all[k]]),
                        self.values@[all[k] as int] is Some,
                    ),
                forall|j: int|
                    0 <= j < self.values@.len() ==> self.values@[j] is None
                        || self.values@[j] == old(self).values@[j],
                forall|id: usize| id < self.space ==> live(self.values@, id),
                !live(self.values@, self.space),
            decreases all.len() - done,
        {
            match iter_next(&mut it) {
                Some(id) => {
                    assert(all.skip(done)[0] == id);
                    assert(all[done] == id);
                    assert(all.contains(id));
                    assert(live(self.values@, id));
                    assert(self.values@[id as int] == old(self).values@[id as int]);
                    assert(old(self)@.dom().contains(id));
                    let ghost before = self.values@;
                    let kept = pred(id, slot_ref(&self.values, id));
                    if !kept {
                        lower(&mut self.space, id);
                        self.values[id] = None;
                    }
                    proof {
                        assert forall|k: int|
                            done + 1 <= k < all.len() implies self.values@[all[k] as int] is Some by {
                            assert(all[done] < all[k]);
                            assert(all.contains(all[k]));
                            assert(live(old(self).values@, all[k]));
                            assert(before[all[k] as int] is Some);
                        }
                        assert forall|i: usize| i < self.space implies live(self.values@, i) by {
                            assert(live(before, i));
                        }
                        assert forall|k: int| 0 <= k < done + 1 implies call_ensures(
                            pred,
                            (all[k], &old(self)@[all[k]]),
                            self.values@[all[k] as int] is Some,
                        ) by {
                            assert(all.contains(all[k]));
                            assert(live(old(self).values@, all[k]));
                            if k < done {
                                assert(all[k] < all[done]);
                                assert(self.values@[all[k] as int] == before[all[k] as int]);
                            }
                        }
                        done = done + 1;
                        assert(all.skip(done - 1).skip(1) =~= all.skip(done));
                    }
                },
                None => {
                    break ;
                },
            }
        }
        let values = &self.values;
        let keep = |id: usize| -> (b: bool)
            ensures
                b == live(values@, id),
            { slot_live(values, id) };
        set_retain(&mut self.ids, keep);
        proof {
            assert forall|id: usize| set_ids(self.ids).contains(id) <==> live(
                self.values@,
                id,
            ) by {
                if live(self.values@, id) {
                    assert(live(old(self).values@, id));
                    assert(set_ids(old(self).ids).contains(id));
                }
            }
            assert forall|id: usize| #[trigger]
                self@.dom().contains(id) implies old(self)@.dom().contains(id) && self@[id] == old(
                    self,
                )@[id] by {
                assert(live(self.values@, id));
            }
            assert forall|id: usize| #[trigger]
                old(self)@.dom().contains(id) implies call_ensures(
                pred,
                (id, &old(self)@[id]),
                self@.dom().contains(id),
            ) by {
                assert(set_ids(old(self).ids).contains(id));
                assert(all.contains(id));
                let k = choose|k: int| 0 <= k < all.len() && all[k] == id;
                assert(call_ensures(
                    pred,
                    (all[k], &old(self)@[all[k]]),
                    self.values@[all[k] as int] is Some,
                ));
                assert(self@.dom().contains(id) == (self.values@[id as int] is Some));
            }
        }
    }

    /// Gives back room that the map does not need. The map holds what it
    /// held. Of the slots the first so many stay, among them every slot with
    /// a value; how many empty slots at the end go depends on how much room
    /// the set of identifiers keeps, which lies with the allocator.
    pub fn shrink_to_fit(&mut self)
        requires
            old(self).wf(),
        ensures
            final(self).wf(),
            final(self)@ == old(self)@,
            final(self).cursor() == old(self).cursor(),
            final(self).slots().len() <= old(self).slots().len(),
            final(self).slots() == old(self).slots().take(final(self).slots().len() as int),
    {
        set_shrink_to_fit(&mut self.ids);
        let cap = set_capacity(&self.ids);
        // No slot at or beyond `cap` holds a value.
        self.values.truncate(cap);
        vec_shrink_to(&mut self.values, cap);
        proof {
            vstd::std_specs::vec::axiom_spec_len(&old(self).values);
            assert forall|id: usize| live(old(self).values@, id) implies live(
                self.values@,
                id,
            ) && self.values@[id as int] == old(self).values@[id as int] by {
                assert(set_ids(self.ids).contains(id));
            }
            assert forall|id: usize| live(self.values@, id) implies live(
                old(self).values@,
                id,
            ) by {}
            assert forall|id: usize| set_ids(self.ids).contains(id) <==> live(
                self.values@,
                id,
            ) by {
                assert(set_ids(old(self).ids).contains(id) <==> live(old(self).values@, id));
            }
            assert(self@ =~= old(self)@);
        }
    }

    /// A walk over the identifiers, in increasing order.
    pub fn ids(&self) -> (it: Ids<'_>)
        requires
            self.wf(),
        ensures
            lists(it.pending(), self@.dom()),
    {
        proof {
            self.lemma_invariant();
        }
        Ids::over(set_iter(&self.ids))
    }

    /// A walk over the values, in order of increasing identifier.
    pub fn values(&self) -> (it: Values<'_, T>)
        requires
            self.wf(),
        ensures
            it.wf(),
            lists(it.pending(), self@.dom()),
            it.entries() == self@,
    {
        proof {
            self.lemma_invariant();
        }
        let ids = set_iter(&self.ids);
        proof {
            assert forall|k: int| 0 <= k < iter_ids(ids).len() implies live(
                self.values@,
                iter_ids(ids)[k],
            ) by {
                assert(iter_ids(ids).contains(iter_ids(ids)[k]));
            }
        }
        Values::over(ids, self.values.as_slice())
    }

    /// A walk over the values, in order of increasing identifier, that lets
    /// each value be changed in place.
    ///
    /// The slots of the map are the first window of the walk, and what
    /// becomes of that window is what the map holds afterwards. The walk
    /// hands out values only, so it leaves a value in every slot that had
    /// one, and a map in which that is so is valid.
    pub fn values_mut(&mut self) -> (it: ValuesMut<'_, T>)
        requires
            old(self).wf(),
        ensures
            it.wf(),
            lists(it.pending(), old(self)@.dom()),
            it.offset() == 0,
            it.window()@ == old(self).slots(),
            final(self).slots() == final(it.window())@,
            final(self).occupancy() == old(self).occupancy(),
            final(self).cursor() == old(self).cursor(),
            same_shape(final(self).slots(), old(self).slots()) ==> final(self).wf(),
    {
        proof {
            self.lemma_invariant();
        }
        let ids = set_iter(&self.ids);
        proof {
            assert forall|k: int| 0 <= k < iter_ids(ids).len() implies live(
                self.values@,
                iter_ids(ids)[k],
            ) by {
                assert(iter_ids(ids).contains(iter_ids(ids)[k]));
            }
        }
        ValuesMut::over(ids, self.values.as_mut_slice())
    }

    /// A walk over the entries, in order of increasing identifier.
    pub fn iter(&self) -> (it: Iter<'_, T>)
        requires
            self.wf(),
        ensures
            it.wf(),
            lists(it.pending(), self@.dom()),
            it.entries() == self@,
    {
        proof {
            self.lemma_invariant();
        }
        let ids = set_iter(&self.ids);
        proof {
            assert forall|k: int| 0 <= k < iter_ids(ids).len() implies live(
                self.values@,
                iter_ids(ids)[k],
            ) by {
                assert(iter_ids(ids).contains(iter_ids(ids)[k]));
            }
        }
        Iter::over(ids, self.values.as_slice())
    }

    /// A walk over the entries, in order of increasing identifier, that lets
    /// each value be changed in place. See `values_mut`.
    pub fn iter_mut(&mut self) -> (it: IterMut<'_, T>)
        requires
            old(self).wf(),
        ensures
            it.wf(),
            lists(it.pending(), old(self)@.dom()),
            it.offset() == 0,
            it.window()@ == old(self).slots(),
            final(self).slots() == final(it.window())@,
            final(self).occupancy() == old(self).occupancy(),
            final(self).cursor() == old(self).cursor(),
            same_shape(final(self).slots(), old(self).slots()) ==> final(self).wf(),
    {
        proof {
            self.lemma_invariant();
        }
        let ids = set_iter(&self.ids);
        proof {
            assert forall|k: int| 0 <= k < iter_ids(ids).len() implies live(
                self.values@,
                iter_ids(ids)[k],
            ) by {
                assert(iter_ids(ids).contains(iter_ids(ids)[k]));
            }
        }
        IterMut::over(ids, self.values.as_mut_slice())
    }

    /// A walk over the entries, in order of increasing identifier, that
    /// takes the map apart and hands out the values themselves.
    pub fn into_iter(self) -> (it: IntoIter<T>)
        requires
            self.wf(),
        ensures
            it.wf(),
            lists(it.pending(), self@.dom()),
            it.offset() == 0,
            it.window() == self.slots(),
            it.entries() == self@,
    {
        proof {
            self.lemma_invariant();
        }
        let IdMap { ids, values, space } = self;
        let ids = set_into_iter(ids);
        proof {
            assert forall|k: int| 0 <= k < into_iter_ids(ids).len() implies live(
                values@,
                into_iter_ids(ids)[k],
            ) by {
                assert(into_iter_ids(ids).contains(into_iter_ids(ids)[k]));
            }
        }
        let it = IntoIter::over(ids, values);
        assert(it.entries() =~= self@);
        it
    }

    /// Puts each of `vals` into the map in turn, as `insert` does.
    pub fn extend(&mut self, vals: Vec<T>)
        requires
            old(self).wf(),
        ensures
            final(self).wf(),
            final(self)@ == insert_all(old(self)@, vals@),
    {
        let ghost all = vals@;
        let ghost mut done: int = 0;
        assert(all.skip(0) =~= all);
        for val in it: vals
            invariant
                self.wf(),
                it.seq() == all,
                done == it.index(),
                insert_all(self@, all.skip(done)) == insert_all(old(self)@, all),
        {
            let ghost before = self@;
            let id = self.insert(val);
            proof {
                lemma_first_free_is(before.dom(), id);
                assert(all.skip(done)[0] == val);
                assert(all.skip(done).skip(1) =~= all.skip(done + 1));
                done = done + 1;
            }
        }
        assert(all.skip(done).len() == 0);
    }

    /// Creates a map that holds `vals` under the identifiers `0`, `1`, and
    /// so on, in their order.
    pub fn from_iter(vals: Vec<T>) -> (m: Self)
        ensures
            m.wf(),
            forall|id: usize| m@.dom().contains(id) <==> id < vals@.len(),
            forall|id: usize| id < vals@.len() ==> m@[id] == vals@[id as int],
    {
        let n: usize = vals.len();
        let ghost all = vals@;
        let mut values: Vec<Option<T>> = Vec::with_capacity(n);
        for val in it: vals
            invariant
                it.seq() == all,
                values@.len() == it.index(),
                forall|j: int| 0 <= j < values@.len() ==> values@[j] == Some(all[j]),
        {
            values.push(Some(val));
        }
        let m = IdMap { ids: set_filled(n), values, space: n };
        assert(forall|id: usize| m@.dom().contains(id) <==> live(m.values@, id));
        m
    }

    /// Creates a map from pairs of identifier and value, put in one after
    /// the other as `insert_at` does.
    pub fn from_pairs(pairs: Vec<(usize, T)>) -> (m: Self)
        ensures
            m.wf(),
            m@ == put_all(Map::<usize, T>::empty(), pairs@),
    {
        let ghost all = pairs@;
        let ghost mut done: int = 0;
        let mut m = IdMap::with_capacity(pairs.len());
        assert(all.skip(0) =~= all);
        for pair in it: pairs
            invariant
                m.wf(),
                it.seq() == all,
                done == it.index(),
                put_all(m@, all.skip(done)) == put_all(Map::<usize, T>::empty(), all),
        {
            let (id, val) = pair;
            m.insert_at(id, val);
            proof {
                assert(all.skip(done)[0] == pair);
                assert(all.skip(done).skip(1) =~= all.skip(done + 1));
                done = done + 1;
            }
        }
        assert(all.skip(done).len() == 0);
        m
    }

    /// Checks, by looking, what `lemma_invariant` proves: that every
    /// identifier below the cursor is in use, that the cursor is not, and
    /// that every identifier in use has a slot. The answer is always `true`.
    pub fn assert_invariant(&self) -> (ok: bool)
        requires
            self.wf(),
        ensures
            ok,
    {
        let mut id: usize = 0;
        while id < self.space
            invariant
                self.wf(),
                id <= self.space,
            decreases self.space - id,
        {
            if !set_contains(&self.ids, id) {
                return false;
            }
            id = id + 1;
        }
        if set_contains(&self.ids, self.space) {
            return false;
        }
        let mut it = set_iter(&self.ids);
        loop
            invariant
                self.wf(),
                forall|id: usize| iter_ids(it).contains(id) ==> set_ids(self.ids).contains(id),
            decreases iter_ids(it).len(),
        {
            let ghost rest = iter_ids(it);
            match iter_next(&mut it) {
                Some(id) => {
                    assert(rest.contains(rest[0]));
                    assert(live(self.values@, id));
                    if id >= self.values.len() {
                        return false;
                    }
                    proof {
                        assert forall|id: usize| iter_ids(it).contains(id) implies set_ids(
                            self.ids,
                        ).contains(id) by {
                            let k = choose|k: int| 0 <= k < rest.skip(1).len() && rest.skip(1)[k] == id;
                            assert(rest[k + 1] == id);
                            assert(rest.contains(id));
                        }
                    }
                },
                None => {
                    return true;
                },
            }
        }
    }

    /// Moves the cursor up from an identifier that has just been taken to
    /// the next one that is free.
    fn find_space(&mut self)
        requires
            forall|id: usize|
                set_ids(old(self).ids).contains(id) <==> live(old(self).values@, id),
            forall|id: usize| id <= old(self).space ==> set_ids(old(self).ids).contains(id),
        ensures
            final(self).wf(),
            final(self).ids == old(self).ids,
            final(self).values == old(self).values,
            final(self).space > old(self).space,
    {
        proof {
            vstd::std_specs::vec::axiom_spec_len(&self.values);
        }
        assert(set_ids(self.ids).contains(self.space));
        assert(live(self.values@, self.space));
        self.space += 1;
        while set_contains(&self.ids, self.space)
            invariant
                self.ids == old(self).ids,
                self.values == old(self).values,
                forall|id: usize| set_ids(self.ids).contains(id) <==> live(self.values@, id),
                forall|id: usize| id < self.space ==> set_ids(self.ids).contains(id),
                self.space > old(self).space,
                self.space <= self.values@.len(),
            decreases self.values@.len() - self.space,
        {
            proof {
                vstd::std_specs::vec::axiom_spec_len(&self.values);
            }
            assert(live(self.values@, self.space));
            self.space += 1;
        }
    }
}

impl<T> Default for IdMap<T> {
    /// The empty map.
    fn default() -> (m: Self)
        ensures
            m.wf(),
            m@ == Map::<usize, T>::empty(),
    {
        IdMap::new()
    }
}

impl<T: Clone> Clone for IdMap<T> {
    /// A map of its own with the same identifiers and, under each, a clone
    /// of the value. Slots without a value are not cloned from anything.
    fn clone(&self) -> (m: Self)
        ensures
            self.wf() ==> m.wf(),
            m@.dom() == self@.dom(),
            m.cursor() == self.cursor(),
            forall|id: usize| #[trigger] m@.dom().contains(id) ==> cloned(self@[id], m@[id]),
    {
        let n: usize = self.values.len();
        let mut values: Vec<Option<T>> = Vec::with_capacity(n);
        let mut i: usize = 0;
        while i < n
            invariant
                i <= n,
                n == self.values@.len(),
                values@.len() == i,
                forall|j: int|
                    #![trigger values@[j]]
                    0 <= j < i ==> (match self.values@[j] {
                        Some(v) => values@[j] is Some && cloned(v, values@[j]->0),
                        None => values@[j] is None,
                    }),
            decreases n - i,
        {
            let slot = match &self.values[i] {
                Some(v) => Some(v.clone()),
                None => None,
            };
            values.push(slot);
            i = i + 1;
        }
        let m = IdMap { ids: set_clone(&self.ids), values, space: self.space };
        proof {
            assert forall|id: usize| live(m.values@, id) <==> live(self.values@, id) by {
                if id < n {
                    assert(match self.values@[id as int] {
                        Some(v) => m.values@[id as int] is Some,
                        None => m.values@[id as int] is None,
                    });
                }
            }
            assert(m@.dom() =~= self@.dom());
        }
        m
    }
}

impl<T> core::ops::Index<usize> for IdMap<T> {
    type Output = T;

    /// The value under `id`, which must be there.
    fn index(&self, id: usize) -> (r: &T)
        ensures
            *r == self@[id],
    {
        slot_ref(&self.values, id)
    }
}

impl<T> vstd::std_specs::core::IndexSpecImpl<usize> for IdMap<T> {
    open spec fn index_req(&self, id: &usize) -> bool {
        self.wf() && self@.dom().contains(*id)
    }
}

/// Lowers the cursor to `id` if `id` lies below it.
fn lower(space: &mut usize, id: usize)
    ensures
        *final(space) == (if id < *old(space) {
            id
        } else {
            *old(space)
        }),
{
    if id < *space {
        *space = id;
    }
}

/// A set of identifiers that all lie below a bound is finite.
pub proof fn lemma_bounded_finite(s: Set<usize>, bound: nat)
    requires
        forall|id: usize| s.contains(id) ==> id < bound,
    ensures
        s.finite(),
    decreases bound,
{
    if bound == 0 {
        assert(s =~= Set::<usize>::empty());
    } else {
        let top = (bound - 1) as usize;
        let rest = s.remove(top);
        lemma_bounded_finite(rest, (bound - 1) as nat);
        if s.contains(top) {
            assert(s =~= rest.insert(top));
        } else {
            assert(s =~= rest);
        }
    }
}

} // verus!
