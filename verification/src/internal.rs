//! The shared block and its reference count.

use vstd::prelude::*;
use core::sync::atomic::{AtomicUsize, Ordering};
use crossbeam_epoch::Guard;
use crossbeam_utils::CachePadded;
use crate::epoch::unpadded;
use crate::rules::{is_last, is_owned, is_sole, successor, RETRY_LIMIT};

verus! {

/// An unguarded increment found the count at zero: the caller did not own the
/// reference it claimed, and the block may already be gone. There is nothing
/// to recover; the caller has to stop.
#[derive(Debug, Clone, Copy, PartialEq, Eq, Structural)]
pub struct Misuse;

/// The reference count of one block, alone on its cache line. It starts at one
/// and, once it has shown zero, no guarded increment raises it again.
///
/// The count belongs to all threads at once. What a call returns depends on
/// what the others did just before, so the contracts here say little; what is
/// decided on a value that a call returned is decided by a function of
/// [`crate::rules`], of which everything is stated.
#[derive(Debug)]
pub struct XarcCount {
    count: CachePadded<AtomicUsize>,
}

impl XarcCount {
    /// A count of one: the reference held by whoever allocates the block.
    #[must_use]
    pub fn new() -> (count: XarcCount) {
        XarcCount { count: CachePadded::new(AtomicUsize::new(1)) }
    }

    /// Takes one reference away and returns the count from before.
    #[must_use]
    pub fn decrement(&self) -> (previous: usize) {
        unpadded(&self.count).fetch_sub(1, Ordering::Relaxed)
    }

    /// Counts one more reference unless the count shows zero. `Ok` carries the
    /// new count. `Err` carries the count last seen and leaves it as it was:
    /// zero when the block is dead, the largest word when the count is
    /// saturated, anything else when `RETRY_LIMIT` attempts all lost to other
    /// threads.
    pub fn try_increment(&self) -> (r: Result<usize, usize>)
        ensures
            r matches Ok(count) ==> count >= 2,
    {
        let word = unpadded(&self.count);
        let mut count: usize = word.load(Ordering::Relaxed);
        let mut budget: u64 = RETRY_LIMIT;
        while budget > 0
            decreases budget,
        {
            match successor(count) {
                None => {
                    return Err(count);
                },
                Some(next) => {
                    match word.compare_exchange_weak(
                        count,
                        next,
                        Ordering::Relaxed,
                        Ordering::Relaxed,
                    ) {
                        Ok(_) => {
                            return Ok(next);
                        },
                        Err(seen) => {
                            count = seen;
                        },
                    }
                },
            }
            budget = budget - 1;
        }
        Err(count)
    }

    /// Counts one more reference without looking first, and returns the count
    /// from before. Only an owner of a reference may call this.
    #[must_use]
    pub fn unguarded_increment(&self) -> (previous: usize) {
        unpadded(&self.count).fetch_add(1, Ordering::Relaxed)
    }

    /// Takes back a reference that the caller counted itself, and returns the
    /// count from before. Only an owner of a reference may call this.
    #[must_use]
    pub fn unguarded_decrement(&self) -> (previous: usize) {
        unpadded(&self.count).fetch_sub(1, Ordering::Relaxed)
    }

    /// Whether the count reads one at this moment.
    #[must_use]
    pub fn is_unique(&self) -> (sole: bool) {
        is_sole(unpadded(&self.count).load(Ordering::Acquire))
    }
}

/// One allocation: a reference count and the value it guards.
#[derive(Debug)]
pub struct XarcData<T: Send> {
    /// How many handles and slots refer to the block.
    pub count: XarcCount,
    /// What the handles dereference to.
    pub value: T,
}

impl<T: Send> XarcData<T> {
    /// A block around `value` with a count of one.
    #[must_use]
    pub fn new(value: T) -> (block: Self)
        ensures
            block.value == value,
    {
        XarcData { count: XarcCount::new(), value }
    }

    /// Moves the value out and leaves `sentinel` in its place, if the count
    /// reads one; hands `sentinel` back otherwise and changes nothing. The
    /// count is read once, by `XarcCount::is_unique`; what follows from the
    /// answer is `take_if`.
    pub fn try_take(&mut self, sentinel: T) -> (r: Result<T, T>)
        ensures
            match r {
                Ok(value) => value == old(self).value && final(self).value == sentinel,
                Err(unused) => unused == sentinel && final(self).value == old(self).value,
            },
            final(self).count == old(self).count,
    {
        let sole = self.count.is_unique();
        self.take_if(sole, sentinel)
    }

    /// The take, once the count has been read: `sole` says whether it read
    /// one. A sole owner receives the value and leaves `sentinel` behind;
    /// anybody else receives `sentinel` back, and the block stays as it was.
    pub fn take_if(&mut self, sole: bool, sentinel: T) -> (r: Result<T, T>)
        ensures
            r is Ok <==> sole,
            match r {
                Ok(value) => value == old(self).value && final(self).value == sentinel,
                Err(unused) => unused == sentinel && final(self).value == old(self).value,
            },
            final(self).count == old(self).count,
    {
        if sole {
            let mut value = sentinel;
            core::mem::swap(&mut self.value, &mut value);
            Ok(value)
        } else {
            Err(sentinel)
        }
    }
}

/// Releases one reference to `block`. Returns whether it was the last: the
/// caller then owes the block to the collector, under `guard` or a later one.
/// Null has nothing to release.
#[must_use]
pub fn decrement<T: Send>(block: Option<&XarcData<T>>, _guard: &Guard) -> (last: bool)
    ensures
        block is None ==> !last,
{
    match block {
        Some(data) => is_last(data.count.decrement()),
        None => false,
    }
}

/// Counts a reference to a block that was reached through a slot, which the
/// caller may do only while it holds `guard`. Fails when the block is already
/// dead; null always succeeds.
pub fn try_increment<T: Send>(block: Option<&XarcData<T>>, _guard: &Guard) -> (r: Result<(), ()>)
    ensures
        block is None ==> r is Ok,
{
    match block {
        Some(data) => {
            match data.count.try_increment() {
                Ok(_) => Ok(()),
                Err(_) => Err(()),
            }
        },
        None => Ok(()),
    }
}

/// Counts a reference on behalf of a caller that already owns one. Reports
/// `Misuse` when the count was found at zero; null always succeeds.
pub fn unguarded_increment<T: Send>(block: Option<&XarcData<T>>) -> (r: Result<(), Misuse>)
    ensures
        block is None ==> r is Ok,
{
    match block {
        Some(data) => {
            if is_owned(data.count.unguarded_increment()) {
                Ok(())
            } else {
                Err(Misuse)
            }
        },
        None => Ok(()),
    }
}

/// Takes back a reference that the caller counted itself, as when an exchange
/// did not take place. Reports `Misuse` when the count was found at zero; null
/// always succeeds.
pub fn unguarded_decrement<T: Send>(block: Option<&XarcData<T>>) -> (r: Result<(), Misuse>)
    ensures
        block is None ==> r is Ok,
{
    match block {
        Some(data) => {
            if is_owned(data.count.unguarded_decrement()) {
                Ok(())
            } else {
                Err(Misuse)
            }
        },
        None => Ok(()),
    }
}

} // verus!
