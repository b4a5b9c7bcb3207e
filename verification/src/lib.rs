//! Atomically swappable, atomically reference-counted pointers.
//!
//! A shared block pairs a reference count with a value. An [`Xarc`] is a counted
//! reference to such a block, or null; an [`AtomicXarc`] is a cache-line-sized
//! word that holds one such reference and can be loaded, swapped and
//! compare-exchanged by any number of threads. Reading a block's address from a
//! slot and then counting a new reference on it races with the release of the
//! last reference; the count therefore never rises again once it has shown
//! zero, and every access to a block reached through a slot happens inside an
//! epoch guard, so that a block whose count fell to zero is destroyed only
//! after every such access has ended.
//!
//! This crate holds the whole protocol: the counter, the rules by which
//! references are taken and released, the slot operations and their retry
//! loops. It owns no memory. Blocks are named by a non-zero machine word, their
//! address; the caller supplies the function that turns an address read from a
//! slot into a reference to the block, and receives from each release the
//! address of a block that has to be handed to the collector.
//!
//! The executable functions state what holds of each call whatever the other
//! threads do. What the calls of many threads achieve together is stated of a
//! model: [`model`] describes the protocol as a transition system over any
//! number of threads, slots and blocks, in which every decision is made by a
//! rule of [`rules`], the same that the executable code applies to what an
//! atomic operation returned; [`safety`] proves its invariant, and [`laws`]
//! what follows for every run.

pub mod epoch;
pub mod rules;
pub mod internal;
pub mod pointer;
pub mod atomic;
pub mod model;
pub mod safety;
pub mod laws;

pub use atomic::{AtomicXarc, Exchange, Exchanged};
pub use internal::{Misuse, XarcCount, XarcData};
pub use pointer::Xarc;
