//! The handle: a counted reference to a shared block, or null.

use vstd::prelude::*;
use vstd::std_specs::cmp::PartialEqSpecImpl;
use crossbeam_epoch::{pin, Guard};
use crate::internal::{decrement, try_increment, unguarded_increment, Misuse, XarcData};

verus! {

/// A reference to a shared block that was counted in the block's reference
/// count, or null. The handle itself is a plain value: the address that names
/// the block and a borrow of the block. Whoever holds it owes the block one
/// `reset`; copying the fields counts nothing, `clone` does.
///
/// Two handles are equal when they name the same block, whatever the blocks
/// hold.
#[derive(Debug)]
pub struct Xarc<'a, T: Send> {
    ptr: usize,
    block: Option<&'a XarcData<T>>,
}

impl<'a, T: Send> Xarc<'a, T> {
    /// The address that names the block; zero for null.
    pub closed spec fn ptr(&self) -> usize {
        self.ptr
    }

    /// The block behind the handle.
    pub closed spec fn block(&self) -> Option<XarcData<T>> {
        match self.block {
            Some(data) => Some(*data),
            None => None,
        }
    }

    /// The address is zero exactly when there is no block. Every handle is
    /// made so and stays so.
    pub open spec fn wf(&self) -> bool {
        self.ptr() == 0 <==> self.block() is None
    }

    #[verifier::type_invariant]
    spec fn paired(&self) -> bool {
        self.ptr == 0 <==> self.block is None
    }

    /// The value behind the handle; nothing for null.
    pub open spec fn value(&self) -> Option<T> {
        match self.block() {
            Some(data) => Some(data.value),
            None => None,
        }
    }

    /// The null handle.
    #[must_use]
    pub fn null() -> (handle: Self)
        ensures
            handle@ == (0usize, None::<T>),
            handle.ptr() == 0,
            handle.block() is None,
            handle.wf(),
    {
        Xarc { ptr: 0, block: None }
    }

    /// The handle for a reference that has been counted already: `block` is
    /// the block named by `ptr`, and both are absent for null.
    #[must_use]
    pub fn init(ptr: usize, block: Option<&'a XarcData<T>>) -> (handle: Self)
        requires
            ptr == 0 <==> block is None,
        ensures
            handle.ptr() == ptr,
            block matches Some(data) ==> handle.block() == Some(*data) && handle@ == (
                ptr,
                Some(data.value),
            ),
            block is None ==> handle.block() is None && handle@ == (0usize, None::<T>),
            handle.wf(),
    {
        Xarc { ptr, block }
    }

    /// Counts a reference to a block reached through a slot and wraps it.
    /// Fails, counting nothing, when the block is already dead. In the model
    /// this is the step `Acquire`, of which
    /// `law_guarded_increment_counts_the_living` says when it goes ahead.
    pub fn try_from(ptr: usize, block: Option<&'a XarcData<T>>, guard: &Guard) -> (r: Result<
        Self,
        (),
    >)
        requires
            ptr == 0 <==> block is None,
        ensures
            ptr == 0 ==> r is Ok,
            r matches Ok(handle) ==> handle.wf() && handle.ptr() == ptr && (block matches Some(
                data,
            ) ==> handle.block() == Some(*data)),
    {
        match try_increment(block, guard) {
            Ok(()) => Ok(Xarc::init(ptr, block)),
            Err(()) => Err(()),
        }
    }

    /// Releases the reference and leaves the handle null. Returns the address
    /// of the block when this was its last reference: the block is then owed
    /// to the collector. In the model this is the step `Drop`, of which
    /// `law_release_counts_one_less` says what it does to the count.
    pub fn reset(&mut self) -> (reclaim: Option<usize>)
        ensures
            final(self)@ == (0usize, None::<T>),
            final(self).ptr() == 0,
            final(self).block() is None,
            final(self).wf(),
            reclaim matches Some(addr) ==> addr == old(self).ptr() && addr != 0,
    {
        proof {
            use_type_invariant(&*self);
        }
        let guard = pin();
        let last = decrement(self.block, &guard);
        let addr = self.ptr;
        *self = Xarc { ptr: 0, block: None };
        if last {
            Some(addr)
        } else {
            None
        }
    }

    /// Whether the handle is null.
    #[must_use]
    pub fn is_null(&self) -> (null: bool)
        ensures
            null == (self@.0 == 0),
            null == (self@.1 is None),
            self.wf(),
    {
        proof {
            use_type_invariant(self);
        }
        self.ptr == 0
    }

    /// The address that names the block: the handle's identity.
    #[must_use]
    pub fn address(&self) -> (addr: usize)
        ensures
            addr == self.ptr(),
            self.wf(),
    {
        proof {
            use_type_invariant(self);
        }
        self.ptr
    }

    /// The value, unless the handle is null.
    #[must_use]
    pub fn maybe_deref(&self) -> (value: Option<&'a T>)
        ensures
            match value {
                Some(v) => self@.1 == Some(*v),
                None => self@.1 is None,
            },
    {
        match self.block {
            Some(data) => Some(&data.value),
            None => None,
        }
    }

    /// Whether this handle holds the only reference to its block at this
    /// moment. Null is nobody's.
    #[must_use]
    pub fn is_unique(&self) -> (sole: bool)
        ensures
            self.block() is None ==> !sole,
    {
        match self.block {
            Some(data) => data.count.is_unique(),
            None => false,
        }
    }

    /// A second handle to the same block, counted. Reports `Misuse` when the
    /// count was found at zero, which no owner of a reference can see. In the
    /// model this is the step `Clone`, of which `law_clone_counts_one_more`
    /// says what it does to the count.
    pub fn clone(&self) -> (r: Result<Self, Misuse>)
        ensures
            self.block() is None ==> r is Ok,
            r matches Ok(handle) ==> handle.ptr() == self.ptr() && handle.block() == self.block()
                && handle@ == self@,
    {
        match unguarded_increment(self.block) {
            Ok(()) => {
                proof {
                    use_type_invariant(self);
                }
                Ok(Xarc { ptr: self.ptr, block: self.block })
            },
            Err(misuse) => Err(misuse),
        }
    }

    /// The same reference under a second name. Nothing is counted: of the two
    /// handles only one may be released.
    pub(crate) fn alias(&self) -> (handle: Self)
        ensures
            handle.ptr() == self.ptr(),
            handle.block() == self.block(),
    {
        proof {
            use_type_invariant(self);
        }
        Xarc { ptr: self.ptr, block: self.block }
    }

    /// The borrow of the block, for the functions that count.
    pub(crate) fn borrowed(&self) -> (block: Option<&'a XarcData<T>>)
        ensures
            block matches Some(data) ==> self.block() == Some(*data),
            block is None ==> self.block() is None,
            self.wf(),
    {
        proof {
            use_type_invariant(self);
        }
        self.block
    }
}

/// A handle is seen as the address that names its block and the value that
/// the block holds.
impl<'a, T: Send> View for Xarc<'a, T> {
    type V = (usize, Option<T>);

    open spec fn view(&self) -> (usize, Option<T>) {
        (self.ptr(), self.value())
    }
}

impl<'a, T: Send> PartialEq for Xarc<'a, T> {
    fn eq(&self, other: &Self) -> (equal: bool) {
        self.ptr == other.ptr
    }
}

impl<'a, T: Send> Eq for Xarc<'a, T> {}

impl<'a, T: Send> PartialEqSpecImpl for Xarc<'a, T> {
    open spec fn obeys_eq_spec() -> bool {
        true
    }

    open spec fn eq_spec(&self, other: &Self) -> bool {
        self@.0 == other@.0
    }
}

} // verus!
