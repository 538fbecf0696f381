//! The storage of the timer wheel, a `slab::Slab`.
use slab::Slab;
use vstd::prelude::*;

verus! {

/// The collection of the `slab` crate: values under keys that the slab picks.
#[verifier::external_type_specification]
#[verifier::external_body]
#[verifier::reject_recursive_types(T)]
pub struct ExSlab<T>(Slab<T>);

/// The values that a slab of timers holds, under their keys. A value is the number
/// under which the timer was given out, whether it is armed, the tick on which it is due
/// and the id that it reports.
pub uninterp spec fn slab_timers(s: Slab<(u64, bool, u128, u64)>) -> Map<usize, (u64, bool, u128, u64)>;

/// `Slab::with_capacity`: an empty slab. The bound keeps the allocation, at less than
/// 64 bytes for each value, within what a vector may allocate.
#[verifier::external_body]
pub(crate) fn slab_with_capacity(capacity: usize) -> (s: Slab<(u64, bool, u128, u64)>)
    requires
        capacity * 64 <= isize::MAX,
    ensures
        slab_timers(s).dom() == Set::<usize>::empty(),
{
    Slab::with_capacity(capacity)
}

/// `Slab::len`: how many values the slab holds.
#[verifier::external_body]
pub(crate) fn slab_len(s: &Slab<(u64, bool, u128, u64)>) -> (n: usize)
    ensures
        n == slab_timers(*s).dom().len(),
{
    s.len()
}

/// `Slab::insert`: stores the value under a key that was not in use. Which key that is
/// is left open.
#[verifier::external_body]
pub(crate) fn slab_insert(s: &mut Slab<(u64, bool, u128, u64)>, value: (u64, bool, u128, u64)) -> (key: usize)
    ensures
        !slab_timers(*old(s)).contains_key(key),
        slab_timers(*final(s)) == slab_timers(*old(s)).insert(key, value),
{
    s.insert(value)
}

/// `Slab::get`: the value under a key, if there is one.
#[verifier::external_body]
pub(crate) fn slab_get(s: &Slab<(u64, bool, u128, u64)>, key: usize) -> (value: Option<(u64, bool, u128, u64)>)
    ensures
        value == (if slab_timers(*s).contains_key(key) {
            Some(slab_timers(*s)[key])
        } else {
            None
        }),
{
    s.get(key).copied()
}

/// `Slab`'s `IndexMut::index_mut`: replaces the value under a key that is in use.
#[verifier::external_body]
pub(crate) fn slab_set(s: &mut Slab<(u64, bool, u128, u64)>, key: usize, value: (u64, bool, u128, u64))
    requires
        slab_timers(*old(s)).contains_key(key),
    ensures
        slab_timers(*final(s)) == slab_timers(*old(s)).insert(key, value),
{
    s[key] = value;
}

/// `Slab::try_remove`: takes the value under a key out, if there is one; the key is
/// then free again.
#[verifier::external_body]
pub(crate) fn slab_try_remove(s: &mut Slab<(u64, bool, u128, u64)>, key: usize) -> (value: Option<(u64, bool, u128, u64)>)
    ensures
        value == (if slab_timers(*old(s)).contains_key(key) {
            Some(slab_timers(*old(s))[key])
        } else {
            None
        }),
        slab_timers(*final(s)) == slab_timers(*old(s)).remove(key),
{
    s.try_remove(key)
}

} // verus!
