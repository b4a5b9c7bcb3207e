//! The rules of the reference count, as functions of the value an atomic
//! operation observed. The counter applies them to what the hardware returns;
//! the model applies them to the count of its abstract blocks.

use vstd::prelude::*;

verus! {

/// How often a retry loop tries before it reports that it did not settle.
pub const RETRY_LIMIT: u64 = 0xffff_ffff_ffff_ffff;

/// The count a guarded increment installs over an observed count: one more,
/// and nothing once the count has shown zero.
pub open spec fn guarded_successor(observed: nat) -> Option<nat> {
    if observed == 0 {
        None
    } else {
        Some(observed + 1)
    }
}

/// A decrement that observed `previous` released the last reference.
pub open spec fn releases_last(previous: nat) -> bool {
    previous == 1
}

/// An unguarded increment that observed `previous` was made by an owner: the
/// count had not reached zero.
pub open spec fn owned(previous: nat) -> bool {
    previous >= 1
}

/// A handle that observes `count` is the only reference to its block.
pub open spec fn sole_owner(count: nat) -> bool {
    count == 1
}

/// The word to install over `observed`, if a guarded increment may go ahead.
/// A saturated count is refused like a dead one.
pub fn successor(observed: usize) -> (next: Option<usize>)
    ensures
        next is Some <==> 0 < observed < usize::MAX,
        next matches Some(n) ==> guarded_successor(observed as nat) == Some(n as nat),
        observed == 0 ==> guarded_successor(observed as nat) is None,
{
    if observed == 0 || observed == usize::MAX {
        None
    } else {
        Some(observed + 1)
    }
}

/// Whether the decrement that returned `previous` took the count to zero.
pub fn is_last(previous: usize) -> (last: bool)
    ensures
        last == releases_last(previous as nat),
{
    previous == 1
}

/// Whether the unguarded increment that returned `previous` found a live block.
pub fn is_owned(previous: usize) -> (live: bool)
    ensures
        live == owned(previous as nat),
{
    previous >= 1
}

/// Whether a handle that reads `count` holds the only reference.
pub fn is_sole(count: usize) -> (sole: bool)
    ensures
        sole == sole_owner(count as nat),
{
    count == 1
}

} // verus!
