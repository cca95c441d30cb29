//! The run of slots that holds the values, and the few steps that every
//! operation on it is made of.

use crate::model::live;
use vstd::prelude::*;

verus! {

/// `Vec::shrink_to`: gives back room beyond `min_capacity` and beyond the
/// length; the elements stay as they are. Nothing is proved here: this
/// states what the standard library documents.
#[verifier::external_body]
pub(crate) fn vec_shrink_to<A>(v: &mut Vec<A>, min_capacity: usize)
    ensures
        final(v)@ == old(v)@,
{
    v.shrink_to(min_capacity)
}

/// Appends empty slots until there is a slot at index `id`.
pub(crate) fn grow<T>(values: &mut Vec<Option<T>>, id: usize)
    ensures
        final(values)@.len() > id,
        final(values)@.len() >= old(values)@.len(),
        final(values)@.len() == old(values)@.len() || final(values)@.len() == id + 1,
        forall|i: int| 0 <= i < old(values)@.len() ==> final(values)@[i] == old(values)@[i],
        forall|i: int| old(values)@.len() <= i < final(values)@.len() ==> final(values)@[i] is None,
{
    while values.len() <= id
        invariant
            values@.len() >= old(values)@.len(),
            values@.len() == old(values)@.len() || values@.len() <= id + 1,
            forall|i: int| 0 <= i < old(values)@.len() ==> values@[i] == old(values)@[i],
            forall|i: int| old(values)@.len() <= i < values@.len() ==> values@[i] is None,
        decreases id + 1 - values@.len(),
    {
        values.push(None);
    }
}

/// Whether the slot at index `id` holds a value.
pub(crate) fn slot_live<T>(values: &Vec<Option<T>>, id: usize) -> (r: bool)
    ensures
        r == live(values@, id),
{
    id < values.len() && values[id].is_some()
}

/// The value in the slot at index `id`.
pub(crate) fn slot_ref<T>(values: &Vec<Option<T>>, id: usize) -> (r: &T)
    requires
        live(values@, id),
    ensures
        *r == values@[id as int]->0,
{
    match &values[id] {
        Some(v) => v,
        None => vstd::pervasive::unreached(),
    }
}

/// The value in the slot at index `id`, to be changed in place. Whatever is
/// written through the result, the slot keeps holding a value and the other
/// slots stay as they are.
pub(crate) fn slot_mut<T>(values: &mut Vec<Option<T>>, id: usize) -> (r: &mut T)
    requires
        live(old(values)@, id),
    ensures
        *r == old(values)@[id as int]->0,
        final(values)@ == old(values)@.update(id as int, Some(*final(r))),
{
    match &mut values[id] {
        Some(v) => v,
        None => vstd::pervasive::unreached(),
    }
}

} // verus!
