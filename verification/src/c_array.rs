//! Arrays as a C caller hands them over: a pointer that may be NULL and, beside it,
//! a count.
//!
//! `None` stands for NULL. A caller that passes a pointer vouches for `count`
//! elements behind it ([`c_array_valid`]); what lies beyond them is never read.
use vstd::prelude::*;

use crate::errno::Errno;

verus! {

/// A pointer that is not NULL has at least `count` elements behind it.
pub open spec fn c_array_valid<T>(ptr: Option<&[T]>, count: u32) -> bool {
    ptr matches Some(s) ==> count <= s@.len()
}

/// The pointer may be NULL only where the count is zero.
pub open spec fn c_array_present<T>(ptr: Option<&[T]>, count: u32) -> bool {
    count != 0 ==> ptr is Some
}

/// The elements of the array.
pub open spec fn c_array_view<T>(ptr: Option<&[T]>, count: u32) -> Seq<T> {
    match ptr {
        Some(s) => s@.take(count as int),
        None => Seq::empty(),
    }
}

/// Refuses a NULL array that claims to have elements.
pub fn require_array<T>(ptr: Option<&[T]>, count: u32) -> (r: Result<(), Errno>)
    ensures
        r == (if c_array_present(ptr, count) {
            Ok::<(), Errno>(())
        } else {
            Err(Errno::EINVAL)
        }),
{
    if count != 0 && ptr.is_none() {
        return Err(Errno::EINVAL);
    }
    Ok(())
}

/// Refuses a NULL length-prefixed field that claims to have bytes.
pub fn require_lpf(ptr: Option<&[u8]>, len: u32) -> (r: Result<(), Errno>)
    ensures
        r == (if c_array_present(ptr, len) {
            Ok::<(), Errno>(())
        } else {
            Err(Errno::EINVAL)
        }),
{
    if len != 0 && ptr.is_none() {
        return Err(Errno::EINVAL);
    }
    Ok(())
}

/// The elements of a valid array as a slice; empty for a NULL pointer.
pub fn c_slice<'a, T>(ptr: Option<&'a [T]>, count: u32) -> (s: &'a [T])
    requires
        c_array_valid(ptr, count),
    ensures
        s@ == c_array_view(ptr, count),
{
    match ptr {
        Some(p) => {
            let s: &'a [T] = vstd::slice::slice_subrange(p, 0, count as usize);
            assert(s@ =~= p@.take(count as int));
            s
        },
        None => {
            let s: &'a [T] = &[];
            assert(s@ =~= Seq::<T>::empty());
            s
        },
    }
}

} // verus!
