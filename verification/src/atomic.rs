//! The slot: atomic storage for one counted reference.

use vstd::prelude::*;
use core::marker::PhantomData;
use core::sync::atomic::{AtomicUsize, Ordering};
use crossbeam_epoch::{pin, Guard};
use crossbeam_utils::{Backoff, CachePadded};
use crate::epoch::unpadded;
use crate::internal::{decrement, try_increment, unguarded_increment, Misuse, XarcData};
use crate::model::Outcome;
use crate::pointer::Xarc;
use crate::rules::RETRY_LIMIT;

verus! {

/// How a compare-exchange ended.
#[derive(Debug)]
pub enum Exchange<'a, T: Send> {
    /// The slot held `current` and now holds `new`. The handle is the
    /// reference that the slot gave up; nothing was counted for it.
    Swapped(Xarc<'a, T>),
    /// The slot was left as it was. The handle is a newly counted reference to
    /// a value that the slot held during the call.
    Kept(Xarc<'a, T>),
    /// The slot was left as it was, and every attempt to count a reference to
    /// what it held lost to a concurrent release.
    Unsettled,
}

/// The report of a compare-exchange.
#[derive(Debug)]
pub struct Exchanged<'a, T: Send> {
    /// Which way it ended, and the handle that comes with it.
    pub exchange: Exchange<'a, T>,
    /// The address of `new`'s block, when taking back the reference counted
    /// for the slot released the last one: the block is owed to the collector.
    pub reclaim_new: Option<usize>,
}

impl<'a, T: Send> Exchange<'a, T> {
    /// The value that the slot held, whether or not it was replaced.
    pub open spec fn held(self) -> Option<Xarc<'a, T>> {
        match self {
            Exchange::Swapped(handle) => Some(handle),
            Exchange::Kept(handle) => Some(handle),
            Exchange::Unsettled => None,
        }
    }

    /// The exchange as the model sees it: which way it ended, and the address
    /// that names the block of the handle it returned.
    pub open spec fn outcome(self) -> Outcome {
        match self {
            Exchange::Swapped(handle) => Outcome::Swapped(handle.ptr()),
            Exchange::Kept(handle) => Outcome::Kept(handle.ptr()),
            Exchange::Unsettled => Outcome::Unsettled,
        }
    }

    /// Forgets whether the exchange took place. The caller can tell by
    /// comparing the handle with the `current` it passed.
    pub fn previous(self) -> (handle: Option<Xarc<'a, T>>)
        ensures
            handle == self.held(),
    {
        match self {
            Exchange::Swapped(handle) => Some(handle),
            Exchange::Kept(handle) => Some(handle),
            Exchange::Unsettled => None,
        }
    }
}

/// An ordering that an atomic load accepts.
pub open spec fn loads(order: Ordering) -> bool {
    order != Ordering::Release && order != Ordering::AcqRel
}

/// One word, alone on its cache line, that holds one counted reference: the
/// address of a block, or zero. It cannot be dereferenced; `load` hands out a
/// handle with a count of its own, and `swap` and the compare-exchanges trade
/// the slot's reference for the caller's.
///
/// An address read from the word names a block that may be released at any
/// moment. The operations turn it into a borrow with `resolve`, which the
/// caller supplies, only while they hold an epoch guard, and they use the
/// borrow only to count a reference.
///
/// The word belongs to all threads at once: a contract cannot say what it
/// holds. The contracts say what holds of a result whatever the word held;
/// [`crate::laws`] says what the operations of all threads add up to.
#[derive(Debug)]
pub struct AtomicXarc<T: Send> {
    ptr: CachePadded<AtomicUsize>,
    marker: PhantomData<T>,
}

impl<T: Send> AtomicXarc<T> {
    /// An empty slot.
    #[must_use]
    pub fn null() -> (slot: Self) {
        AtomicXarc { ptr: CachePadded::new(AtomicUsize::new(0)), marker: PhantomData }
    }

    /// A slot that takes over a reference which has been counted already.
    #[must_use]
    pub fn init(ptr: usize) -> (slot: Self) {
        AtomicXarc { ptr: CachePadded::new(AtomicUsize::new(ptr)), marker: PhantomData }
    }

    /// A slot that holds a reference of its own to the block of `pointer`. In
    /// the model this is the step `NewSlot`.
    pub fn from<'a>(pointer: &Xarc<'a, T>) -> (r: Result<Self, Misuse>)
        ensures
            pointer.block() is None ==> r is Ok,
    {
        match unguarded_increment(pointer.borrowed()) {
            Ok(()) => Ok(AtomicXarc::init(pointer.address())),
            Err(misuse) => Err(misuse),
        }
    }

    /// As one atomic step, replaces the slot's value by `new` if it is
    /// `current`. Returns the value that the slot held, without saying which
    /// of the two happened, and the address of `new`'s block if that is owed
    /// to the collector.
    pub fn compare_and_swap<'a, F: Fn(usize) -> &'a XarcData<T>>(
        &self,
        current: &Xarc<'a, T>,
        new: &Xarc<'a, T>,
        success: Ordering,
        failure: Ordering,
        resolve: &F,
    ) -> (r: Result<(Option<Xarc<'a, T>>, Option<usize>), Misuse>)
        requires
            loads(failure),
            forall|addr: usize| addr != 0 ==> call_requires(*resolve, (addr,)),
        ensures
            new.block() is None ==> r is Ok,
            r matches Ok((previous, reclaim)) ==> collapsed(
                *resolve,
                *current,
                *new,
                previous,
                reclaim,
            ),
            r matches Ok((Some(handle), _)) ==> resolved(*resolve, handle) || (handle.ptr()
                == current.ptr() && handle.block() == current.block()),
            r matches Ok((_, Some(addr))) ==> addr == new.ptr() && addr != 0,
    {
        match self.compare_exchange(current, new, success, failure, resolve) {
            Ok(report) => {
                let ghost whole = report;
                let reclaim = report.reclaim_new;
                let previous = report.exchange.previous();
                proof {
                    assert(settled(*resolve, *current, *new, whole));
                    assert(previous == whole.exchange.held());
                }
                Ok((previous, reclaim))
            },
            Err(misuse) => Err(misuse),
        }
    }

    /// As one atomic step, replaces the slot's value by `new` if it is
    /// `current`.
    ///
    /// A reference is counted for `new` before the attempt, on the strength of
    /// the caller's own. If the slot held `current`, that reference is now the
    /// slot's, and the slot's former one is returned in `Swapped`. If not, the
    /// reference is taken back, and `Kept` returns a newly counted reference
    /// to the value found: the value seen by the failed attempt if it can
    /// still be counted, and whatever `load` finds otherwise.
    ///
    /// In the model these are the steps `BeginExchange` and `Cas` and, after a
    /// failure, `Undo`, `Acquire` and the steps of a `load`.
    pub fn compare_exchange<'a, F: Fn(usize) -> &'a XarcData<T>>(
        &self,
        current: &Xarc<'a, T>,
        new: &Xarc<'a, T>,
        success: Ordering,
        failure: Ordering,
        resolve: &F,
    ) -> (r: Result<Exchanged<'a, T>, Misuse>)
        requires
            loads(failure),
            forall|addr: usize| addr != 0 ==> call_requires(*resolve, (addr,)),
        ensures
            new.block() is None ==> r is Ok,
            r matches Ok(report) ==> settled(*resolve, *current, *new, report),
    {
        let guard = pin();
        match unguarded_increment(new.borrowed()) {
            Err(misuse) => Err(misuse),
            Ok(()) => {
                let attempt = unpadded(&self.ptr).compare_exchange(
                    current.address(),
                    new.address(),
                    success,
                    failure,
                );
                Ok(self.settle(current, new, attempt, failure, resolve, &guard))
            },
        }
    }

    /// `compare_exchange`, except that the attempt may fail although the slot
    /// holds `current`. It costs less on some machines and belongs in a loop.
    pub fn compare_exchange_weak<'a, F: Fn(usize) -> &'a XarcData<T>>(
        &self,
        current: &Xarc<'a, T>,
        new: &Xarc<'a, T>,
        success: Ordering,
        failure: Ordering,
        resolve: &F,
    ) -> (r: Result<Exchanged<'a, T>, Misuse>)
        requires
            loads(failure),
            forall|addr: usize| addr != 0 ==> call_requires(*resolve, (addr,)),
        ensures
            new.block() is None ==> r is Ok,
            r matches Ok(report) ==> settled(*resolve, *current, *new, report),
    {
        let guard = pin();
        match unguarded_increment(new.borrowed()) {
            Err(misuse) => Err(misuse),
            Ok(()) => {
                let attempt = unpadded(&self.ptr).compare_exchange_weak(
                    current.address(),
                    new.address(),
                    success,
                    failure,
                );
                Ok(self.settle(current, new, attempt, failure, resolve, &guard))
            },
        }
    }

    /// What a compare-exchange owes after the attempt on the word, for which
    /// the caller had counted a reference to `new`. `Ok` is the hardware's
    /// word that the slot held `current` and now holds `new`: the slot has
    /// taken the reference counted for `new` and given up its own, which is
    /// returned under `current`'s name. `Err` carries the word that the slot
    /// held instead: the reference counted for `new` is taken back, and a
    /// reference is counted to the block that the word names, or, if that
    /// block is dead by now, to what the slot holds next. A null word names
    /// no block: the report is then `Kept` of the null handle, whatever the
    /// other threads do.
    pub fn settle<'a, F: Fn(usize) -> &'a XarcData<T>>(
        &self,
        current: &Xarc<'a, T>,
        new: &Xarc<'a, T>,
        attempt: Result<usize, usize>,
        failure: Ordering,
        resolve: &F,
        guard: &Guard,
    ) -> (report: Exchanged<'a, T>)
        requires
            loads(failure),
            forall|addr: usize| addr != 0 ==> call_requires(*resolve, (addr,)),
        ensures
            settled(*resolve, *current, *new, report),
            attempt is Ok <==> report.exchange.outcome() == Outcome::Swapped(current.ptr()),
            attempt is Err <==> report.exchange.outcome() is Kept || report.exchange.outcome()
                is Unsettled,
            attempt is Err && new.block() is None ==> report.reclaim_new is None,
            attempt == Err::<usize, usize>(0) ==> report.exchange.outcome() == Outcome::Kept(0),
    {
        match attempt {
            Ok(_) => Exchanged { exchange: Exchange::Swapped(current.alias()), reclaim_new: None },
            Err(seen) => {
                let reclaim_new = if decrement(new.borrowed(), guard) {
                    Some(new.address())
                } else {
                    None
                };
                let exchange = match self.increment_or_reload(seen, failure, resolve) {
                    Ok(found) => Exchange::Kept(found),
                    Err(()) => Exchange::Unsettled,
                };
                Exchanged { exchange, reclaim_new }
            },
        }
    }

    /// A handle to the slot's value, with a count of its own. Reads the word
    /// and tries to count a reference to the block it names; when the block
    /// turns out to be dead the word was stale, and the read is repeated after
    /// a short spin. A read whose count could not be taken for another reason
    /// is repeated in the same way: the count was saturated, or
    /// `XarcCount::try_increment` lost every one of its exchanges to other
    /// threads. Fails only when `RETRY_LIMIT` reads in a row ended so.
    ///
    /// In the model these are the steps `BeginLoad`, then `Read` and `Acquire`
    /// as often as it takes, or `GiveUp`.
    pub fn load<'a, F: Fn(usize) -> &'a XarcData<T>>(&self, order: Ordering, resolve: &F) -> (r:
        Result<Xarc<'a, T>, ()>)
        requires
            loads(order),
            forall|addr: usize| addr != 0 ==> call_requires(*resolve, (addr,)),
        ensures
            r matches Ok(handle) ==> resolved(*resolve, handle),
    {
        let guard = pin();
        let backoff = Backoff::new();
        let mut budget: u64 = RETRY_LIMIT;
        while budget > 0
            invariant
                loads(order),
                forall|addr: usize| addr != 0 ==> call_requires(*resolve, (addr,)),
            decreases budget,
        {
            let ptr: usize = unpadded(&self.ptr).load(order);
            let block = if ptr == 0 {
                None
            } else {
                Some(resolve(ptr))
            };
            match Xarc::try_from(ptr, block, &guard) {
                Ok(pointer) => {
                    return Ok(pointer);
                },
                Err(()) => {
                    backoff.spin();
                },
            }
            budget = budget - 1;
        }
        Err(())
    }

    /// A handle to the slot's value, in one attempt. Fails when the value was
    /// released between the read and the count. In the model these are the
    /// steps `BeginLoad`, `Read` and `Acquire`.
    pub fn try_load<'a, F: Fn(usize) -> &'a XarcData<T>>(&self, order: Ordering, resolve: &F) -> (r:
        Result<Xarc<'a, T>, ()>)
        requires
            loads(order),
            forall|addr: usize| addr != 0 ==> call_requires(*resolve, (addr,)),
        ensures
            r matches Ok(handle) ==> resolved(*resolve, handle),
    {
        let guard = pin();
        let ptr: usize = unpadded(&self.ptr).load(order);
        let block = if ptr == 0 {
            None
        } else {
            Some(resolve(ptr))
        };
        Xarc::try_from(ptr, block, &guard)
    }

    /// As one atomic step, replaces the slot's value by `new`. The handle
    /// returned is the reference that the slot gave up. No guard is needed:
    /// the only block touched after the step is the one whose reference the
    /// caller now owns. In the model these are the steps `BeginSwap` and
    /// `Swap`.
    pub fn swap<'a, F: Fn(usize) -> &'a XarcData<T>>(
        &self,
        new: &Xarc<'a, T>,
        order: Ordering,
        resolve: &F,
    ) -> (r: Result<Xarc<'a, T>, Misuse>)
        requires
            forall|addr: usize| addr != 0 ==> call_requires(*resolve, (addr,)),
        ensures
            new.block() is None ==> r is Ok,
            r matches Ok(handle) ==> resolved(*resolve, handle),
    {
        match unguarded_increment(new.borrowed()) {
            Err(misuse) => Err(misuse),
            Ok(()) => {
                let ptr: usize = unpadded(&self.ptr).swap(new.address(), order);
                let block = if ptr == 0 {
                    None
                } else {
                    Some(resolve(ptr))
                };
                Ok(Xarc::init(ptr, block))
            },
        }
    }

    /// Gives up the slot together with the reference it holds. Returns the
    /// address of the block when that was its last reference. In the model
    /// this is the step `Release`.
    pub fn release<'a, F: Fn(usize) -> &'a XarcData<T>>(self, resolve: &F) -> (reclaim: Option<
        usize,
    >) where T: 'a
        requires
            forall|addr: usize| addr != 0 ==> call_requires(*resolve, (addr,)),
        ensures
            reclaim matches Some(addr) ==> addr != 0,
    {
        let ptr: usize = unpadded(&self.ptr).load(Ordering::Relaxed);
        if ptr == 0 {
            None
        } else if decrement(Some(resolve(ptr)), &pin()) {
            Some(ptr)
        } else {
            None
        }
    }

    /// A counted reference to the value that a failed compare-exchange saw:
    /// to that very block if it is still alive, to the slot's present value
    /// otherwise. A null word names no block and is returned as the null
    /// handle, always.
    fn increment_or_reload<'a, F: Fn(usize) -> &'a XarcData<T>>(
        &self,
        ptr: usize,
        order: Ordering,
        resolve: &F,
    ) -> (r: Result<Xarc<'a, T>, ()>)
        requires
            loads(order),
            forall|addr: usize| addr != 0 ==> call_requires(*resolve, (addr,)),
        ensures
            r matches Ok(handle) ==> resolved(*resolve, handle),
            ptr == 0 ==> (r matches Ok(handle) && handle@ == (0usize, None::<T>)),
    {
        let guard = pin();
        let block = if ptr == 0 {
            None
        } else {
            Some(resolve(ptr))
        };
        if try_increment(block, &guard).is_ok() {
            Ok(Xarc::init(ptr, block))
        } else {
            self.load(order, resolve)
        }
    }
}

/// The handle is null, or its block is the one that `resolve` names for its
/// address.
pub open spec fn resolved<'a, T: Send, F: Fn(usize) -> &'a XarcData<T>>(
    resolve: F,
    handle: Xarc<'a, T>,
) -> bool {
    &&& handle.wf()
    &&& handle.ptr() != 0 ==> exists|block: &'a XarcData<T>|
        call_ensures(resolve, (handle.ptr(),), block) && handle.block() == Some(*block)
}

/// What `compare_and_swap` returns is what a compare-exchange reports, less
/// the word on whether it took place: the handle of the report, if it has
/// one, and the address it owes to the collector.
pub open spec fn collapsed<'a, T: Send, F: Fn(usize) -> &'a XarcData<T>>(
    resolve: F,
    current: Xarc<'a, T>,
    new: Xarc<'a, T>,
    previous: Option<Xarc<'a, T>>,
    reclaim: Option<usize>,
) -> bool {
    exists|report: Exchanged<'a, T>|
        #![trigger report.exchange.held()]
        {
            &&& settled(resolve, current, new, report)
            &&& previous == report.exchange.held()
            &&& reclaim == report.reclaim_new
        }
}

/// What a compare-exchange of `current` for `new` may report: a slot that was
/// swapped gave up exactly `current`, and nothing was taken back; a block owed
/// to the collector is `new`'s.
pub open spec fn settled<'a, T: Send, F: Fn(usize) -> &'a XarcData<T>>(
    resolve: F,
    current: Xarc<'a, T>,
    new: Xarc<'a, T>,
    report: Exchanged<'a, T>,
) -> bool {
    &&& report.exchange matches Exchange::Swapped(handle) ==> {
        &&& handle.ptr() == current.ptr()
        &&& handle.block() == current.block()
        &&& report.reclaim_new is None
    }
    &&& report.exchange matches Exchange::Kept(handle) ==> resolved(resolve, handle)
    &&& report.reclaim_new matches Some(addr) ==> addr == new.ptr() && addr != 0
}

} // verus!
