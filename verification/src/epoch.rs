//! The pieces of `crossbeam` that the protocol stands on: the epoch guard, the
//! spin backoff and the cache-line padding. Nothing here is proved; each item
//! says what is taken on trust.

use vstd::prelude::*;
use crossbeam_epoch::Guard;
use crossbeam_utils::{Backoff, CachePadded};

verus! {

/// `crossbeam_epoch::Guard`: while one is alive the thread is pinned, and
/// nothing handed to the collector after the pin is destroyed.
#[verifier::external_type_specification]
#[verifier::external_body]
pub struct ExGuard(Guard);

/// `crossbeam_utils::Backoff`: a counter of how long to spin next.
#[verifier::external_type_specification]
#[verifier::external_body]
pub struct ExBackoff(Backoff);

/// `crossbeam_utils::CachePadded`: a value alone on its cache line.
#[verifier::external_type_specification]
#[verifier::external_body]
#[verifier::reject_recursive_types(T)]
pub struct ExCachePadded<T>(CachePadded<T>);

/// `crossbeam_epoch::pin` pins the current thread and returns the guard.
/// Nothing is claimed of the guard's value. The call panics only when the
/// thread already holds as many guards as a word can count.
pub assume_specification[ crossbeam_epoch::pin ]() -> (guard: Guard)
;

/// `Backoff::new` starts a backoff at its shortest spin.
pub assume_specification[ Backoff::new ]() -> (backoff: Backoff)
;

/// `Backoff::spin` busy-waits for a short, growing while and returns.
pub assume_specification[ Backoff::spin ](backoff: &Backoff)
;

/// `CachePadded::new` wraps a value. Nothing is claimed of the wrapper: what
/// this crate pads are atomics, whose contents no contract can speak of.
pub assume_specification<T>[ CachePadded::<T>::new ](t: T) -> (padded: CachePadded<T>)
;

/// `Deref::deref` of `CachePadded` lends the wrapped value.
#[verifier::external_body]
pub(crate) fn unpadded<T>(padded: &CachePadded<T>) -> (inner: &T)
{
    &**padded
}

} // verus!
