//! The set of occupied identifiers, kept by the `id_set` crate.
//!
//! Nothing in this file is proved. Each function here makes one call into
//! `id_set` and states what that call does, read off the source of `id_set`;
//! the rest of the crate is verified against these statements.
//!
//! The statements speak of what a set holds, not of the memory behind it. A
//! set keeps one bit for every identifier up to the largest that it has held,
//! so putting in a very large identifier may ask for more memory than there
//! is; like the standard collections under Verus, the statements leave that
//! aside.

use crate::model::lists;
use id_set::IdSet;
use vstd::prelude::*;

verus! {

#[verifier::external_type_specification]
#[verifier::external_body]
pub struct ExIdSet(id_set::IdSet);

/// A walk over a set that borrows it: the iterator that `IdSet::iter`
/// returns, `id_set::Iter`. It is kept in a struct of this crate, which has
/// a walk named `Iter` of its own; Verus sees nothing inside it.
#[verifier::external_body]
pub struct SetIter<'a> {
    inner: id_set::Iter<'a>,
}

/// A walk over a set that owns it: the iterator that `IdSet::into_iter`
/// returns, `id_set::IntoIter`. It is kept in a struct of this crate, which
/// has a walk named `IntoIter` of its own; Verus sees nothing inside it.
#[verifier::external_body]
pub struct SetIntoIter {
    inner: id_set::IntoIter,
}

/// The identifiers that a set holds.
pub uninterp spec fn set_ids(s: IdSet) -> Set<usize>;

/// A number of identifiers that a set has been made to have room for, or
/// asked to have room for. The capacity that the set reports is at least
/// this; how much more there is lies with the allocator and has no name.
pub uninterp spec fn set_room(s: IdSet) -> nat;

/// The number of bits that a set holds in itself, before it allocates: six
/// blocks of 32 bits each.
pub const INLINE_BITS: usize = 192;

/// The identifiers that a borrowing iterator over a set has yet to yield, in
/// the order in which it will yield them.
pub uninterp spec fn iter_ids(it: SetIter) -> Seq<usize>;

/// The identifiers that a consuming iterator over a set has yet to yield, in
/// the order in which it will yield them.
pub uninterp spec fn into_iter_ids(it: SetIntoIter) -> Seq<usize>;

/// `IdSet::new`: a set that holds nothing.
#[verifier::external_body]
pub(crate) fn set_new() -> (s: IdSet)
    ensures
        set_ids(s) == Set::<usize>::empty(),
{
    IdSet::new()
}

/// `IdSet::with_capacity`: a set that holds nothing and has room for the
/// identifiers below `n`. For `n` up to `INLINE_BITS` the set is the one
/// that holds its bits in itself; above that it allocates blocks for `n`
/// bits at least.
#[verifier::external_body]
pub(crate) fn set_with_capacity(n: usize) -> (s: IdSet)
    ensures
        set_ids(s) == Set::<usize>::empty(),
        set_room(s) >= n,
{
    IdSet::with_capacity(n)
}

/// `IdSet::new_filled`: the set of all identifiers below `n`.
#[verifier::external_body]
pub(crate) fn set_filled(n: usize) -> (s: IdSet)
    ensures
        forall|id: usize| set_ids(s).contains(id) <==> id < n,
{
    IdSet::new_filled(n)
}

/// `IdSet::clear`: nothing is left in the set.
#[verifier::external_body]
pub(crate) fn set_clear(s: &mut IdSet)
    ensures
        set_ids(*final(s)) == Set::<usize>::empty(),
{
    s.clear()
}

/// `IdSet::len`: how many identifiers the set holds. The set keeps this
/// count beside its bits and adjusts it on every change.
#[verifier::external_body]
pub(crate) fn set_len(s: &IdSet) -> (n: usize)
    ensures
        n == set_ids(*s).len(),
{
    s.len()
}

/// `IdSet::capacity`: the number of bits that the set has room for, cut off
/// at `usize::MAX`. How much room there is depends on the allocator; what
/// holds of every outcome is that the bits in use lie within it, and that it
/// is no less than the room that the set was made or asked to have.
#[verifier::external_body]
pub(crate) fn set_capacity(s: &IdSet) -> (c: usize)
    ensures
        forall|id: usize| set_ids(*s).contains(id) ==> id < c || c == usize::MAX,
        c >= set_room(*s),
{
    s.capacity()
}

/// `IdSet::reserve`: makes room; the set holds what it held, and loses no
/// room.
///
/// The documentation of `id_set` promises room for `cap` in every case. Its
/// source gives that where `cap` is above `INLINE_BITS`: it then allocates,
/// or has the vector of blocks reserve, blocks for `cap` bits at least.
/// For a smaller `cap` it leaves the set alone, and a set that is the clone
/// of an allocated one may have less room than that. So the last clause
/// speaks of the larger `cap` only.
#[verifier::external_body]
pub(crate) fn set_reserve(s: &mut IdSet, cap: usize)
    ensures
        set_ids(*final(s)) == set_ids(*old(s)),
        set_room(*final(s)) >= set_room(*old(s)),
        cap > INLINE_BITS ==> set_room(*final(s)) >= cap,
{
    s.reserve(cap)
}

/// `IdSet::shrink_to_fit`: gives room back; the set holds what it held.
#[verifier::external_body]
pub(crate) fn set_shrink_to_fit(s: &mut IdSet)
    ensures
        set_ids(*final(s)) == set_ids(*old(s)),
{
    s.shrink_to_fit()
}

/// `IdSet::contains`: whether the set holds `id`.
#[verifier::external_body]
pub(crate) fn set_contains(s: &IdSet, id: usize) -> (r: bool)
    ensures
        r == set_ids(*s).contains(id),
{
    s.contains(id)
}

/// `IdSet::insert`: the set holds `id` afterwards; the result says whether
/// `id` was new to it.
#[verifier::external_body]
pub(crate) fn set_insert(s: &mut IdSet, id: usize) -> (r: bool)
    ensures
        set_ids(*final(s)) == set_ids(*old(s)).insert(id),
        r == !set_ids(*old(s)).contains(id),
{
    s.insert(id)
}

/// `IdSet::remove`: the set does not hold `id` afterwards; the result says
/// whether it did before.
#[verifier::external_body]
pub(crate) fn set_remove(s: &mut IdSet, id: usize) -> (r: bool)
    ensures
        set_ids(*final(s)) == set_ids(*old(s)).remove(id),
        r == set_ids(*old(s)).contains(id),
{
    s.remove(id)
}

/// `==` on `IdSet`: whether two sets hold the same identifiers, however
/// much room each has.
#[verifier::external_body]
pub(crate) fn set_eq(a: &IdSet, b: &IdSet) -> (r: bool)
    ensures
        r == (set_ids(*a) == set_ids(*b)),
{
    a == b
}

/// `IdSet::clone`: a set of its own that holds the same identifiers.
#[verifier::external_body]
pub(crate) fn set_clone(s: &IdSet) -> (r: IdSet)
    ensures
        set_ids(r) == set_ids(*s),
{
    s.clone()
}

/// `IdSet::intersection`, walked to its end: the identifiers that both sets
/// hold, smallest first.
#[verifier::external_body]
pub(crate) fn set_common(a: &IdSet, b: &IdSet) -> (r: Vec<usize>)
    ensures
        lists(r@, set_ids(*a).intersect(set_ids(*b))),
{
    a.intersection(b).into_iter().collect()
}

/// `IdSet::inplace_difference`: what `a` held and `b` does not hold.
#[verifier::external_body]
pub(crate) fn set_subtract(a: &mut IdSet, b: &IdSet)
    ensures
        set_ids(*final(a)) == set_ids(*old(a)).difference(set_ids(*b)),
{
    a.inplace_difference(b)
}

/// `IdSet::retain`: asks `keep` once about each identifier that the set
/// holds, smallest first, and drops those for which the answer is `false`.
#[verifier::external_body]
pub(crate) fn set_retain<F: Fn(usize) -> bool>(s: &mut IdSet, keep: F)
    requires
        forall|id: usize| set_ids(*old(s)).contains(id) ==> call_requires(keep, (id,)),
    ensures
        forall|id: usize|
            set_ids(*final(s)).contains(id) ==> set_ids(*old(s)).contains(id) && call_ensures(
                keep,
                (id,),
                true,
            ),
        forall|id: usize|
            set_ids(*old(s)).contains(id) && !set_ids(*final(s)).contains(id) ==> call_ensures(
                keep,
                (id,),
                false,
            ),
{
    s.retain(keep)
}

/// `IdSet::iter`: an iterator that will yield what the set holds, smallest
/// first.
#[verifier::external_body]
pub(crate) fn set_iter(s: &IdSet) -> (it: SetIter<'_>)
    ensures
        lists(iter_ids(it), set_ids(*s)),
{
    SetIter { inner: s.iter() }
}

/// `Iterator::next` on `id_set::Iter`: yields the first of the remaining
/// identifiers, or `None` once none remains.
#[verifier::external_body]
pub(crate) fn iter_next(it: &mut SetIter) -> (r: Option<usize>)
    ensures
        match r {
            Some(id) => iter_ids(*old(it)).len() > 0 && id == iter_ids(*old(it))[0] && iter_ids(
                *final(it),
            ) == iter_ids(*old(it)).skip(1),
            None => iter_ids(*old(it)).len() == 0 && iter_ids(*final(it)) == iter_ids(*old(it)),
        },
{
    it.inner.next()
}

/// `ExactSizeIterator::len` on `id_set::Iter`: how many identifiers remain.
#[verifier::external_body]
pub(crate) fn iter_len(it: &SetIter) -> (n: usize)
    ensures
        n == iter_ids(*it).len(),
{
    it.inner.len()
}

/// `Clone::clone` on `id_set::Iter`: an iterator with the same identifiers
/// to come.
#[verifier::external_body]
pub(crate) fn iter_clone<'a>(it: &SetIter<'a>) -> (r: SetIter<'a>)
    ensures
        iter_ids(r) == iter_ids(*it),
{
    SetIter { inner: it.inner.clone() }
}

/// `IntoIterator::into_iter` on `IdSet`: an iterator that will yield what
/// the set held, smallest first.
#[verifier::external_body]
pub(crate) fn set_into_iter(s: IdSet) -> (it: SetIntoIter)
    ensures
        lists(into_iter_ids(it), set_ids(s)),
{
    SetIntoIter { inner: s.into_iter() }
}

/// `Iterator::next` on `id_set::IntoIter`: yields the first of the remaining
/// identifiers, or `None` once none remains.
#[verifier::external_body]
pub(crate) fn into_iter_next(it: &mut SetIntoIter) -> (r: Option<usize>)
    ensures
        match r {
            Some(id) => into_iter_ids(*old(it)).len() > 0 && id == into_iter_ids(*old(it))[0]
                && into_iter_ids(*final(it)) == into_iter_ids(*old(it)).skip(1),
            None => into_iter_ids(*old(it)).len() == 0 && into_iter_ids(*final(it))
                == into_iter_ids(*old(it)),
        },
{
    it.inner.next()
}

/// `ExactSizeIterator::len` on `id_set::IntoIter`: how many identifiers
/// remain.
#[verifier::external_body]
pub(crate) fn into_iter_len(it: &SetIntoIter) -> (n: usize)
    ensures
        n == into_iter_ids(*it).len(),
{
    it.inner.len()
}

/// `Clone::clone` on `id_set::IntoIter`: an iterator with the same
/// identifiers to come.
#[verifier::external_body]
pub(crate) fn into_iter_clone(it: &SetIntoIter) -> (r: SetIntoIter)
    ensures
        into_iter_ids(r) == into_iter_ids(*it),
{
    SetIntoIter { inner: it.inner.clone() }
}

} // verus!
