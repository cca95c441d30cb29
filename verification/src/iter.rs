//! The ways to walk a map. Every walk goes by increasing identifier.
//!
//! Each walk keeps the identifiers that it has yet to yield, `pending()`, and
//! the entries that it can still reach, `entries()`. A step yields the first
//! pending identifier, or its value, or both.

use crate::map::IdMap;
use crate::model::{ascending, head, lists, live, same_shape, slots_map, tail, window_map};
use crate::occupancy::{
    into_iter_clone, into_iter_ids, into_iter_len, into_iter_next, iter_clone, iter_ids, iter_len,
    iter_next, set_ids, set_into_iter, set_iter, SetIntoIter, SetIter,
};
use crate::storage::slot_ref;
use vstd::prelude::*;

verus! {

/// A walk over the identifiers of a map.
pub struct Ids<'a> {
    ids: SetIter<'a>,
}

impl<'a> Ids<'a> {
    /// The identifiers that are yet to come, in their order.
    pub closed spec fn pending(&self) -> Seq<usize> {
        iter_ids(self.ids)
    }

    /// A walk that yields what `ids` yields.
    pub(crate) fn over(ids: SetIter<'a>) -> (it: Self)
        ensures
            it.pending() == iter_ids(ids),
    {
        Ids { ids }
    }

    /// Yields the next identifier.
    pub fn next(&mut self) -> (r: Option<usize>)
        ensures
            r == head(old(self).pending()),
            final(self).pending() == tail(old(self).pending()),
    {
        iter_next(&mut self.ids)
    }

    /// The number of identifiers that are yet to come.
    pub fn len(&self) -> (n: usize)
        ensures
            n == self.pending().len(),
    {
        iter_len(&self.ids)
    }

    /// The number of identifiers that are yet to come, as a lower and an
    /// upper bound.
    pub fn size_hint(&self) -> (r: (usize, Option<usize>))
        ensures
            r.0 == self.pending().len(),
            r.1 == Some(r.0),
    {
        let n = iter_len(&self.ids);
        (n, Some(n))
    }
}

impl<'a> Clone for Ids<'a> {
    /// A second walk that stands where this one stands.
    fn clone(&self) -> (r: Self)
        ensures
            r.pending() == self.pending(),
    {
        Ids { ids: iter_clone(&self.ids) }
    }
}

/// A walk over the values of a map.
pub struct Values<'a, T> {
    ids: SetIter<'a>,
    values: &'a [Option<T>],
}

impl<'a, T> Values<'a, T> {
    /// A walk over the slots `values`, by the identifiers that `ids` yields.
    pub(crate) fn over(ids: SetIter<'a>, values: &'a [Option<T>]) -> (it: Self)
        requires
            forall|k: int| 0 <= k < iter_ids(ids).len() ==> live(values@, iter_ids(ids)[k]),
        ensures
            it.wf(),
            it.pending() == iter_ids(ids),
            it.entries() == slots_map(values@),
    {
        Values { ids, values }
    }

    /// The identifiers whose values are yet to come, in their order.
    pub closed spec fn pending(&self) -> Seq<usize> {
        iter_ids(self.ids)
    }

    /// The entries of the map that is walked.
    pub closed spec fn entries(&self) -> Map<usize, T> {
        slots_map(self.values@)
    }

    /// Every pending identifier has an entry.
    pub closed spec fn wf(&self) -> bool {
        forall|k: int| 0 <= k < self.pending().len() ==> self.entries().dom().contains(self.pending()[k])
    }

    /// Yields the value under the next identifier.
    pub fn next(&mut self) -> (r: Option<&'a T>)
        requires
            old(self).wf(),
        ensures
            final(self).wf(),
            final(self).pending() == tail(old(self).pending()),
            final(self).entries() == old(self).entries(),
            r == (match head(old(self).pending()) {
                Some(id) => Some(&old(self).entries()[id]),
                None => None,
            }),
    {
        let ghost before = iter_ids(self.ids);
        match iter_next(&mut self.ids) {
            Some(id) => {
                proof {
                    assert(self.entries().dom().contains(before[0]));
                    assert forall|k: int| 0 <= k < self.pending().len() implies self.entries().dom().contains(
                        self.pending()[k],
                    ) by {
                        assert(self.pending()[k] == before[k + 1]);
                    }
                }
                Some(slice_slot_ref(self.values, id))
            },
            None => None,
        }
    }

    /// The number of values that are yet to come.
    pub fn len(&self) -> (n: usize)
        ensures
            n == self.pending().len(),
    {
        iter_len(&self.ids)
    }

    /// The number of values that are yet to come, as a lower and an upper
    /// bound.
    pub fn size_hint(&self) -> (r: (usize, Option<usize>))
        ensures
            r.0 == self.pending().len(),
            r.1 == Some(r.0),
    {
        let n = iter_len(&self.ids);
        (n, Some(n))
    }
}

impl<'a, T> Clone for Values<'a, T> {
    /// A second walk over the same map that stands where this one stands.
    fn clone(&self) -> (r: Self)
        ensures
            r.pending() == self.pending(),
            r.entries() == self.entries(),
            r.wf() == self.wf(),
    {
        Values { ids: iter_clone(&self.ids), values: self.values }
    }
}

/// A walk over the entries of a map.
pub struct Iter<'a, T> {
    ids: SetIter<'a>,
    values: &'a [Option<T>],
}

impl<'a, T> Iter<'a, T> {
    /// A walk over the slots `values`, by the identifiers that `ids` yields.
    pub(crate) fn over(ids: SetIter<'a>, values: &'a [Option<T>]) -> (it: Self)
        requires
            forall|k: int| 0 <= k < iter_ids(ids).len() ==> live(values@, iter_ids(ids)[k]),
        ensures
            it.wf(),
            it.pending() == iter_ids(ids),
            it.entries() == slots_map(values@),
    {
        Iter { ids, values }
    }

    /// The identifiers of the entries that are yet to come, in their order.
    pub closed spec fn pending(&self) -> Seq<usize> {
        iter_ids(self.ids)
    }

    /// The entries of the map that is walked.
    pub closed spec fn entries(&self) -> Map<usize, T> {
        slots_map(self.values@)
    }

    /// Every pending identifier has an entry.
    pub closed spec fn wf(&self) -> bool {
        forall|k: int| 0 <= k < self.pending().len() ==> self.entries().dom().contains(self.pending()[k])
    }

    /// Yields the next identifier together with its value.
    pub fn next(&mut self) -> (r: Option<(usize, &'a T)>)
        requires
            old(self).wf(),
        ensures
            final(self).wf(),
            final(self).pending() == tail(old(self).pending()),
            final(self).entries() == old(self).entries(),
            r == (match head(old(self).pending()) {
                Some(id) => Some((id, &old(self).entries()[id])),
                None => None,
            }),
    {
        let ghost before = iter_ids(self.ids);
        match iter_next(&mut self.ids) {
            Some(id) => {
                proof {
                    assert(self.entries().dom().contains(before[0]));
                    assert forall|k: int| 0 <= k < self.pending().len() implies self.entries().dom().contains(
                        self.pending()[k],
                    ) by {
                        assert(self.pending()[k] == before[k + 1]);
                    }
                }
                Some((id, slice_slot_ref(self.values, id)))
            },
            None => None,
        }
    }

    /// The number of entries that are yet to come.
    pub fn len(&self) -> (n: usize)
        ensures
            n == self.pending().len(),
    {
        iter_len(&self.ids)
    }

    /// The number of entries that are yet to come, as a lower and an upper
    /// bound.
    pub fn size_hint(&self) -> (r: (usize, Option<usize>))
        ensures
            r.0 == self.pending().len(),
            r.1 == Some(r.0),
    {
        let n = iter_len(&self.ids);
        (n, Some(n))
    }
}

impl<'a, T> Clone for Iter<'a, T> {
    /// A second walk over the same map that stands where this one stands.
    fn clone(&self) -> (r: Self)
        ensures
            r.pending() == self.pending(),
            r.entries() == self.entries(),
            r.wf() == self.wf(),
    {
        Iter { ids: iter_clone(&self.ids), values: self.values }
    }
}

/// A walk over the values of a map that lets each value be changed in place.
///
/// The walk holds the slots that it has not passed yet, `window()`, the
/// first of which belongs to the identifier `offset()`. A step passes over
/// the empty slots in front of the next identifier and hands out the value
/// in its slot; the slots behind that one are the new window. No slot is
/// handed out twice.
pub struct ValuesMut<'a, T> {
    ids: SetIter<'a>,
    prev: Option<usize>,
    values: &'a mut [Option<T>],
}

impl<'a, T> ValuesMut<'a, T> {
    /// Ends the walk. The slots that it has not passed stay as they are.
    pub fn finish(self)
        ensures
            final(self.window())@ == self.window()@,
    {
    }

    /// A walk over the slots `values`, by the identifiers that `ids` yields.
    pub(crate) fn over(ids: SetIter<'a>, values: &'a mut [Option<T>]) -> (it: Self)
        requires
            ascending(iter_ids(ids)),
            forall|k: int| 0 <= k < iter_ids(ids).len() ==> live(values@, iter_ids(ids)[k]),
        ensures
            it.wf(),
            it.pending() == iter_ids(ids),
            it.offset() == 0,
            it.window()@ == old(values)@,
            final(it.window())@ == final(values)@,
    {
        let ghost slots = values@;
        let it = ValuesMut { ids, prev: None, values };
        proof {
            assert forall|k: int| 0 <= k < it.pending().len() implies it.entries().dom().contains(
                it.pending()[k],
            ) by {
                assert(live(slots, it.pending()[k]));
            }
        }
        it
    }

    /// The identifiers whose values are yet to come, in their order.
    pub closed spec fn pending(&self) -> Seq<usize> {
        iter_ids(self.ids)
    }

    /// The identifier that the first slot of the window belongs to.
    pub closed spec fn offset(&self) -> nat {
        reach(self.prev)
    }

    /// The slots that the walk has not passed yet.
    pub closed spec fn window(&self) -> &'a mut [Option<T>] {
        self.values
    }

    /// The entries that the walk can still reach.
    pub open spec fn entries(&self) -> Map<usize, T> {
        window_map(self.offset(), self.window()@)
    }

    /// The pending identifiers ascend, and each has an entry in the window.
    pub closed spec fn wf(&self) -> bool {
        &&& ascending(self.pending())
        &&& forall|k: int|
            0 <= k < self.pending().len() ==> self.entries().dom().contains(self.pending()[k])
    }

    /// Yields the value under the next identifier, to be changed in place.
    ///
    /// The last clause says what becomes of the old window: the slots that
    /// were passed over stay empty, the slot that was handed out holds
    /// whatever the caller leaves in it, and the rest is what becomes of the
    /// new window.
    pub fn next(&mut self) -> (r: Option<&'a mut T>)
        requires
            old(self).wf(),
        ensures
            final(self).wf(),
            final(self).pending() == tail(old(self).pending()),
            match r {
                Some(v) => {
                    let id = old(self).pending()[0];
                    let n = id - old(self).offset();
                    &&& old(self).pending().len() > 0
                    &&& old(self).entries().dom().contains(id)
                    &&& *v == old(self).entries()[id]
                    &&& final(self).offset() == id + 1
                    &&& final(self).window()@ == old(self).window()@.skip(n + 1)
                    &&& final(old(self).window())@ == old(self).window()@.take(n).push(
                        Some(*final(v)),
                    ) + final(final(self).window())@
                },
                None => {
                    &&& old(self).pending().len() == 0
                    &&& final(self).offset() == old(self).offset()
                    &&& final(self).window() == old(self).window()
                },
            },
    {
        let ghost before = iter_ids(self.ids);
        match iter_next(&mut self.ids) {
            Some(id) => {
                assert(old(self).entries().dom().contains(before[0]));
                let n = gap(self.prev, id);
                self.prev = Some(id);
                let mut taken: &'a mut [Option<T>] = &mut [];
                core::mem::swap(&mut self.values, &mut taken);
                let len = taken.len();
                let (front, back) = taken.split_at_mut(n + 1);
                self.values = back;
                proof {
                    assert forall|k: int|
                        0 <= k < self.pending().len() implies self.entries().dom().contains(
                        self.pending()[k],
                    ) by {
                        assert(self.pending()[k] == before[k + 1]);
                        assert(before[0] < before[k + 1]);
                        assert(old(self).entries().dom().contains(before[k + 1]));
                    }
                    assert forall|i: int, j: int|
                        0 <= i < j < self.pending().len() implies self.pending()[i]
                        < self.pending()[j] by {
                        assert(self.pending()[i] == before[i + 1]);
                        assert(self.pending()[j] == before[j + 1]);
                    }
                }
                match &mut front[n] {
                    Some(v) => Some(v),
                    None => vstd::pervasive::unreached(),
                }
            },
            None => None,
        }
    }

    /// The number of values that are yet to come.
    pub fn len(&self) -> (n: usize)
        ensures
            n == self.pending().len(),
    {
        iter_len(&self.ids)
    }

    /// The number of values that are yet to come, as a lower and an upper
    /// bound.
    pub fn size_hint(&self) -> (r: (usize, Option<usize>))
        ensures
            r.0 == self.pending().len(),
            r.1 == Some(r.0),
    {
        let n = iter_len(&self.ids);
        (n, Some(n))
    }
}

/// A walk over the entries of a map that lets each value be changed in place.
///
/// The walk holds the slots that it has not passed yet, `window()`, the
/// first of which belongs to the identifier `offset()`. A step passes over
/// the empty slots in front of the next identifier and hands out the value
/// in its slot; the slots behind that one are the new window. No slot is
/// handed out twice.
pub struct IterMut<'a, T> {
    ids: SetIter<'a>,
    prev: Option<usize>,
    values: &'a mut [Option<T>],
}

impl<'a, T> IterMut<'a, T> {
    /// Ends the walk. The slots that it has not passed stay as they are.
    pub fn finish(self)
        ensures
            final(self.window())@ == self.window()@,
    {
    }

    /// A walk over the slots `values`, by the identifiers that `ids` yields.
    pub(crate) fn over(ids: SetIter<'a>, values: &'a mut [Option<T>]) -> (it: Self)
        requires
            ascending(iter_ids(ids)),
            forall|k: int| 0 <= k < iter_ids(ids).len() ==> live(values@, iter_ids(ids)[k]),
        ensures
            it.wf(),
            it.pending() == iter_ids(ids),
            it.offset() == 0,
            it.window()@ == old(values)@,
            final(it.window())@ == final(values)@,
    {
        let ghost slots = values@;
        let it = IterMut { ids, prev: None, values };
        proof {
            assert forall|k: int| 0 <= k < it.pending().len() implies it.entries().dom().contains(
                it.pending()[k],
            ) by {
                assert(live(slots, it.pending()[k]));
            }
        }
        it
    }

    /// The identifiers whose values are yet to come, in their order.
    pub closed spec fn pending(&self) -> Seq<usize> {
        iter_ids(self.ids)
    }

    /// The identifier that the first slot of the window belongs to.
    pub closed spec fn offset(&self) -> nat {
        reach(self.prev)
    }

    /// The slots that the walk has not passed yet.
    pub closed spec fn window(&self) -> &'a mut [Option<T>] {
        self.values
    }

    /// The entries that the walk can still reach.
    pub open spec fn entries(&self) -> Map<usize, T> {
        window_map(self.offset(), self.window()@)
    }

    /// The pending identifiers ascend, and each has an entry in the window.
    pub closed spec fn wf(&self) -> bool {
        &&& ascending(self.pending())
        &&& forall|k: int|
            0 <= k < self.pending().len() ==> self.entries().dom().contains(self.pending()[k])
    }

    /// Yields the next identifier together with its value, the value to be changed in place.
    ///
    /// The last clause says what becomes of the old window: the slots that
    /// were passed over stay empty, the slot that was handed out holds
    /// whatever the caller leaves in it, and the rest is what becomes of the
    /// new window.
    pub fn next(&mut self) -> (r: Option<(usize, &'a mut T)>)
        requires
            old(self).wf(),
        ensures
            final(self).wf(),
            final(self).pending() == tail(old(self).pending()),
            match r {
                Some((got, v)) => {
                    let id = old(self).pending()[0];
                    let n = id - old(self).offset();
                    &&& old(self).pending().len() > 0
                    &&& got == id
                    &&& old(self).entries().dom().contains(id)
                    &&& *v == old(self).entries()[id]
                    &&& final(self).offset() == id + 1
                    &&& final(self).window()@ == old(self).window()@.skip(n + 1)
                    &&& final(old(self).window())@ == old(self).window()@.take(n).push(
                        Some(*final(v)),
                    ) + final(final(self).window())@
                },
                None => {
                    &&& old(self).pending().len() == 0
                    &&& final(self).offset() == old(self).offset()
                    &&& final(self).window() == old(self).window()
                },
            },
    {
        let ghost before = iter_ids(self.ids);
        match iter_next(&mut self.ids) {
            Some(id) => {
                assert(old(self).entries().dom().contains(before[0]));
                let n = gap(self.prev, id);
                self.prev = Some(id);
                let mut taken: &'a mut [Option<T>] = &mut [];
                core::mem::swap(&mut self.values, &mut taken);
                let len = taken.len();
                let (front, back) = taken.split_at_mut(n + 1);
                self.values = back;
                proof {
                    assert forall|k: int|
                        0 <= k < self.pending().len() implies self.entries().dom().contains(
                        self.pending()[k],
                    ) by {
                        assert(self.pending()[k] == before[k + 1]);
                        assert(before[0] < before[k + 1]);
                        assert(old(self).entries().dom().contains(before[k + 1]));
                    }
                    assert forall|i: int, j: int|
                        0 <= i < j < self.pending().len() implies self.pending()[i]
                        < self.pending()[j] by {
                        assert(self.pending()[i] == before[i + 1]);
                        assert(self.pending()[j] == before[j + 1]);
                    }
                }
                match &mut front[n] {
                    Some(v) => Some((id, v)),
                    None => vstd::pervasive::unreached(),
                }
            },
            None => None,
        }
    }

    /// The number of values that are yet to come.
    pub fn len(&self) -> (n: usize)
        ensures
            n == self.pending().len(),
    {
        iter_len(&self.ids)
    }

    /// The number of values that are yet to come, as a lower and an upper
    /// bound.
    pub fn size_hint(&self) -> (r: (usize, Option<usize>))
        ensures
            r.0 == self.pending().len(),
            r.1 == Some(r.0),
    {
        let n = iter_len(&self.ids);
        (n, Some(n))
    }
}

/// A walk over the entries of a map that takes the map apart and hands out
/// the values themselves.
///
/// Like the walks that change values in place, this one holds the slots that
/// it has not passed yet, `window()`, the first of which belongs to the
/// identifier `offset()`, and passes over the empty slots in front of the
/// next identifier.
pub struct IntoIter<T> {
    ids: SetIntoIter,
    prev: Option<usize>,
    /// The window, last slot first, so that the next slot is the one to pop.
    values: Vec<Option<T>>,
}

impl<T> IntoIter<T> {
    /// A walk over the slots `values`, by the identifiers that `ids` yields.
    pub(crate) fn over(ids: SetIntoIter, values: Vec<Option<T>>) -> (it: Self)
        requires
            ascending(into_iter_ids(ids)),
            forall|k: int|
                0 <= k < into_iter_ids(ids).len() ==> live(values@, into_iter_ids(ids)[k]),
        ensures
            it.wf(),
            it.pending() == into_iter_ids(ids),
            it.offset() == 0,
            it.window() == values@,
    {
        let ghost slots = values@;
        let mut values = values;
        let total: usize = values.len();
        let mut turned: Vec<Option<T>> = Vec::with_capacity(total);
        while values.len() > 0
            invariant
                total == slots.len(),
                values@.len() + turned@.len() == total,
                values@ == slots.take(values@.len() as int),
                forall|j: int| 0 <= j < turned@.len() ==> turned@[j] == slots[total - 1 - j],
            decreases values@.len(),
        {
            match values.pop() {
                Some(slot) => {
                    turned.push(slot);
                },
                None => {},
            }
        }
        let it = IntoIter { ids, prev: None, values: turned };
        proof {
            assert(it.window() =~= slots);
            assert forall|k: int| 0 <= k < it.pending().len() implies it.entries().dom().contains(
                it.pending()[k],
            ) by {
                assert(live(slots, it.pending()[k]));
            }
        }
        it
    }

    /// The identifiers of the entries that are yet to come, in their order.
    pub closed spec fn pending(&self) -> Seq<usize> {
        into_iter_ids(self.ids)
    }

    /// The identifier that the first slot of the window belongs to.
    pub closed spec fn offset(&self) -> nat {
        reach(self.prev)
    }

    /// The slots that the walk has not passed yet.
    pub closed spec fn window(&self) -> Seq<Option<T>> {
        Seq::new(self.values@.len(), |i: int| self.values@[self.values@.len() - 1 - i])
    }

    /// The entries that the walk can still reach.
    pub open spec fn entries(&self) -> Map<usize, T> {
        window_map(self.offset(), self.window())
    }

    /// The pending identifiers ascend, and each has an entry in the window.
    pub closed spec fn wf(&self) -> bool {
        &&& ascending(self.pending())
        &&& forall|k: int|
            0 <= k < self.pending().len() ==> self.entries().dom().contains(self.pending()[k])
    }

    /// Yields the next identifier together with its value.
    pub fn next(&mut self) -> (r: Option<(usize, T)>)
        requires
            old(self).wf(),
        ensures
            final(self).wf(),
            final(self).pending() == tail(old(self).pending()),
            match r {
                Some((got, v)) => {
                    let id = old(self).pending()[0];
                    &&& old(self).pending().len() > 0
                    &&& got == id
                    &&& old(self).entries().dom().contains(id)
                    &&& v == old(self).entries()[id]
                    &&& final(self).offset() == id + 1
                    &&& final(self).window() == old(self).window().skip(
                        id - old(self).offset() + 1,
                    )
                },
                None => {
                    &&& old(self).pending().len() == 0
                    &&& final(self).offset() == old(self).offset()
                    &&& final(self).window() == old(self).window()
                },
            },
    {
        let ghost before = into_iter_ids(self.ids);
        let ghost window = self.window();
        match into_iter_next(&mut self.ids) {
            Some(id) => {
                assert(old(self).entries().dom().contains(before[0]));
                let n = gap(self.prev, id);
                self.prev = Some(id);
                let ghost stack = self.values@;
                let ghost rest = into_iter_ids(self.ids);
                let mut i: usize = 0;
                while i < n
                    invariant
                        i <= n,
                        n < stack.len(),
                        into_iter_ids(self.ids) == rest,
                        self.prev == Some(id),
                        self.values@ == stack.take(stack.len() - i),
                    decreases n - i,
                {
                    self.values.pop();
                    i = i + 1;
                }
                let slot = self.values.pop();
                proof {
                    assert(self.values@ == stack.take(stack.len() - n - 1));
                    assert(self.window() =~= window.skip(n + 1));
                    assert(slot == Some(window[n as int]));
                    assert forall|k: int|
                        0 <= k < self.pending().len() implies self.entries().dom().contains(
                        self.pending()[k],
                    ) by {
                        assert(self.pending()[k] == before[k + 1]);
                        assert(before[0] < before[k + 1]);
                        assert(old(self).entries().dom().contains(before[k + 1]));
                    }
                    assert forall|i: int, j: int|
                        0 <= i < j < self.pending().len() implies self.pending()[i]
                        < self.pending()[j] by {
                        assert(self.pending()[i] == before[i + 1]);
                        assert(self.pending()[j] == before[j + 1]);
                    }
                }
                match slot {
                    Some(Some(v)) => Some((id, v)),
                    _ => vstd::pervasive::unreached(),
                }
            },
            None => None,
        }
    }

    /// The number of entries that are yet to come, as a lower and an upper
    /// bound.
    pub fn size_hint(&self) -> (r: (usize, Option<usize>))
        ensures
            r.0 == self.pending().len(),
            r.1 == Some(r.0),
    {
        let n = into_iter_len(&self.ids);
        (n, Some(n))
    }
}

impl<T: Clone> Clone for IntoIter<T> {
    /// A second walk that stands where this one stands, over clones of the
    /// values.
    fn clone(&self) -> (r: Self)
        ensures
            r.pending() == self.pending(),
            r.offset() == self.offset(),
            self.wf() ==> r.wf(),
            r.entries().dom() == self.entries().dom(),
            forall|id: usize| #[trigger]
                r.entries().dom().contains(id) ==> cloned(self.entries()[id], r.entries()[id]),
    {
        let n: usize = self.values.len();
        let mut values: Vec<Option<T>> = Vec::with_capacity(n);
        let mut i: usize = 0;
        while i < n
            invariant
                i <= n,
                n == self.values@.len(),
                values@.len() == i,
                forall|j: int|
                    #![trigger values@[j]]
                    0 <= j < i ==> (match self.values@[j] {
                        Some(v) => values@[j] is Some && cloned(v, values@[j]->0),
                        None => values@[j] is None,
                    }),
            decreases n - i,
        {
            let slot = match &self.values[i] {
                Some(v) => Some(v.clone()),
                None => None,
            };
            values.push(slot);
            i = i + 1;
        }
        let r = IntoIter { ids: into_iter_clone(&self.ids), prev: self.prev, values };
        proof {
            assert forall|id: usize|
                r.entries().dom().contains(id) <==> self.entries().dom().contains(id) by {
                if self.offset() <= id && id - self.offset() < n {
                    let j = n - 1 - (id - self.offset());
                    assert(match self.values@[j] {
                        Some(v) => r.values@[j] is Some && cloned(v, r.values@[j]->0),
                        None => r.values@[j] is None,
                    });
                }
            }
            assert(r.entries().dom() =~= self.entries().dom());
            assert forall|id: usize| #[trigger] r.entries().dom().contains(id) implies cloned(
                self.entries()[id],
                r.entries()[id],
            ) by {
                let j = n - 1 - (id - self.offset());
                assert(match self.values@[j] {
                    Some(v) => r.values@[j] is Some && cloned(v, r.values@[j]->0),
                    None => r.values@[j] is None,
                });
            }
        }
        r
    }
}

/// The value in the slot at index `id`.
fn slice_slot_ref<'a, T>(values: &'a [Option<T>], id: usize) -> (r: &'a T)
    requires
        live(values@, id),
    ensures
        *r == values@[id as int]->0,
{
    match &values[id] {
        Some(v) => v,
        None => vstd::pervasive::unreached(),
    }
}

/// The number of slots to pass over before the slot of `id`, for a walk
/// whose last identifier was `prev`: the identifiers strictly between the
/// two, or all those below `id` at the start.
fn gap(prev: Option<usize>, id: usize) -> (n: usize)
    requires
        prev matches Some(p) ==> p < id,
    ensures
        n == id - reach(prev),
{
    match prev {
        Some(p) => id - p - 1,
        None => id,
    }
}

/// The identifier that the first slot of the remaining run belongs to, for a
/// walk whose last identifier was `prev`.
pub open spec fn reach(prev: Option<usize>) -> nat {
    match prev {
        Some(p) => (p + 1) as nat,
        None => 0,
    }
}

} // verus!
