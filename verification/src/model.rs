//! The protocol as a transition system.
//!
//! A world is the slots, the blocks that were ever allocated, the handles that
//! clients hold, and the slot operations that threads have begun and not yet
//! finished. A step is one atomic action of one party: an operation on a
//! count, on the slot's word, or by the collector. Each step changes a count
//! by the rule in [`crate::rules`] that the executable code applies to the
//! value the hardware returned; what the epoch guard promises is the
//! condition under which the collector may free a block. Any run of the
//! library's operations by any number of threads is a sequence of such steps.
//!
//! The steps take place one after another. The model gives every atomic
//! operation of every thread its place in one order; it does not describe
//! what a thread may see of two different words when the caller asks for a
//! weaker ordering than that.

use vstd::prelude::*;
use crate::rules::{guarded_successor, releases_last};

verus! {

/// One allocation, as the protocol sees it.
pub struct Block {
    /// The count word.
    pub count: nat,
    /// The handles that clients hold.
    pub handles: nat,
    /// The slots that hold a reference to this block.
    pub holders: Set<int>,
    /// The threads whose unfinished exchange or swap has counted a reference
    /// to this block for the slot.
    pub lenders: Set<int>,
    /// How often the block was handed to the collector.
    pub retired: nat,
    /// The time at which it was handed over.
    pub retired_at: nat,
    /// The collector has destroyed the block.
    pub freed: bool,
}

/// Where an unfinished slot operation stands.
pub enum Stage {
    /// About to read the slot's word.
    Reading,
    /// Has read `addr`, found at `seen_at` in the slot's history, and is about
    /// to count a reference to it.
    Acquiring { addr: usize, seen_at: nat },
    /// Has counted a reference to `new` and is about to compare-exchange.
    Exchanging { current: usize, new: usize, weak: bool },
    /// The compare-exchange failed on seeing `seen`; the reference counted for
    /// `new` is about to be taken back.
    Undoing { new: usize, seen: usize, seen_at: nat },
    /// Has counted a reference to `new` and is about to swap.
    Swapping { new: usize },
}

/// One slot.
pub struct Slot {
    /// The slot's word.
    pub word: usize,
    /// Every value that the slot has held, oldest first.
    pub history: Seq<usize>,
}

/// One unfinished slot operation.
pub struct Task {
    /// The slot it works on.
    pub slot: int,
    /// How far it has come.
    pub stage: Stage,
    /// The time at which the operation pinned its guard, if it holds one.
    pub pinned: Option<nat>,
    /// The place in the slot's history of the value held when it began.
    pub began: nat,
    /// A stale read is repeated, not reported.
    pub retry: bool,
    /// The operation is a compare-exchange that has failed.
    pub failed: bool,
}

/// Everything the protocol knows at one moment.
pub struct World {
    /// The blocks by address. An address leaves the map never, and is given
    /// out again only after the collector has freed its block.
    pub blocks: Map<usize, Block>,
    /// The slots that exist.
    pub slots: Map<int, Slot>,
    /// The unfinished operations by thread.
    pub tasks: Map<int, Task>,
    /// Counts the pins and the retirements.
    pub clock: nat,
}

/// One atomic action.
pub enum Step {
    /// A client allocates a block and holds the first handle to it.
    Allocate { addr: usize },
    /// A client clones a handle it holds.
    Clone { addr: usize },
    /// A client releases a handle it holds.
    Drop { addr: usize },
    /// A client makes a slot that holds a reference of its own to the block of
    /// a handle it holds, or null.
    NewSlot { sid: int, addr: usize },
    /// A thread begins a `load` (`retry`) or a `try_load`, and pins.
    BeginLoad { tid: int, sid: int, retry: bool },
    /// A thread reads the slot's word.
    Read { tid: int },
    /// A thread tries to count a reference to the block it read. `contended`
    /// stands for an attempt that ran out of tries on a live count.
    Acquire { tid: int, contended: bool },
    /// A retrying thread runs out of tries.
    GiveUp { tid: int },
    /// A thread begins a compare-exchange: it pins and counts a reference to
    /// `new`, to which the caller holds a handle.
    BeginExchange { tid: int, sid: int, current: usize, new: usize, weak: bool },
    /// The compare-exchange itself. `spurious` lets a weak one fail.
    Cas { tid: int, spurious: bool },
    /// A thread takes back the reference it counted before a failed attempt.
    Undo { tid: int },
    /// A thread begins a swap: it counts a reference to `new`.
    BeginSwap { tid: int, sid: int, new: usize },
    /// The swap itself.
    Swap { tid: int },
    /// A slot that no operation works on is given up with the reference it
    /// holds.
    Release { sid: int },
    /// The collector frees a block.
    Free { addr: usize },
}

/// What a finished operation hands to its caller.
pub enum Outcome {
    /// `load` or `try_load` returns a handle.
    Loaded(usize),
    /// `load` or `try_load` fails.
    Stale,
    /// A compare-exchange succeeded and returns the slot's former reference.
    Swapped(usize),
    /// A compare-exchange failed and returns a handle to what it found.
    Kept(usize),
    /// A compare-exchange failed and found nothing it could count.
    Unsettled,
    /// A swap returns the slot's former reference.
    Replaced(usize),
}

impl Block {
    /// A block as allocation leaves it: one handle, counted.
    pub open spec fn fresh() -> Block {
        Block {
            count: 1,
            handles: 1,
            holders: Set::empty(),
            lenders: Set::empty(),
            retired: 0,
            retired_at: 0,
            freed: false,
        }
    }

    /// One reference more, counted without looking.
    pub open spec fn counted(self) -> Block {
        Block { count: self.count + 1, ..self }
    }

    /// One reference fewer; the block goes to the collector if that was the
    /// last.
    pub open spec fn released(self, now: nat) -> Block {
        Block {
            count: (self.count - 1) as nat,
            retired: if releases_last(self.count) {
                self.retired + 1
            } else {
                self.retired
            },
            retired_at: if releases_last(self.count) {
                now
            } else {
                self.retired_at
            },
            ..self
        }
    }
}

impl Task {
    /// The block to which the task has counted a reference for the slot.
    pub open spec fn lends(self) -> usize {
        match self.stage {
            Stage::Exchanging { new, .. } => new,
            Stage::Undoing { new, .. } => new,
            Stage::Swapping { new } => new,
            _ => 0,
        }
    }

    /// The address that the task has read from the slot and may yet turn into
    /// a borrow.
    pub open spec fn reads(self) -> usize {
        match self.stage {
            Stage::Acquiring { addr, .. } => addr,
            Stage::Undoing { seen, .. } => seen,
            _ => 0,
        }
    }
}

impl World {
    /// No block, no slot, nothing under way.
    pub open spec fn empty() -> World {
        World { blocks: Map::empty(), slots: Map::empty(), tasks: Map::empty(), clock: 0 }
    }

    /// The place in a slot's history of its present value.
    pub open spec fn now(self, sid: int) -> nat {
        (self.slots[sid].history.len() - 1) as nat
    }

    /// No unfinished operation works on the slot.
    pub open spec fn idle(self, sid: int) -> bool {
        forall|tid: int| #[trigger] self.tasks.contains_key(tid) ==> self.tasks[tid].slot != sid
    }

    /// The world with `block` at `addr`.
    pub open spec fn with_block(self, addr: usize, block: Block) -> World {
        World { blocks: self.blocks.insert(addr, block), ..self }
    }

    /// The world in which the operation of `tid` has reached `stage`.
    pub open spec fn with_stage(self, tid: int, stage: Stage) -> World {
        World { tasks: self.tasks.insert(tid, Task { stage, ..self.tasks[tid] }), ..self }
    }

    /// The world in which the operation of `tid` has ended and let go of its
    /// guard.
    pub open spec fn without_task(self, tid: int) -> World {
        World { tasks: self.tasks.remove(tid), ..self }
    }

    /// The slot's word is `addr` from now on.
    pub open spec fn storing(self, sid: int, addr: usize) -> World {
        World {
            slots: self.slots.insert(
                sid,
                Slot { word: addr, history: self.slots[sid].history.push(addr) },
            ),
            ..self
        }
    }

    /// A client receives a handle to `addr` whose reference is counted
    /// already.
    pub open spec fn granting(self, addr: usize) -> World {
        if addr == 0 {
            self
        } else {
            self.with_block(
                addr,
                Block { handles: self.blocks[addr].handles + 1, ..self.blocks[addr] },
            )
        }
    }

    /// Thread `tid` counts a reference to `addr` for a slot.
    pub open spec fn lending(self, tid: int, addr: usize) -> World {
        if addr == 0 {
            self
        } else {
            self.with_block(
                addr,
                Block {
                    lenders: self.blocks[addr].lenders.insert(tid),
                    ..self.blocks[addr].counted()
                },
            )
        }
    }

    /// The reference that `tid` counted to `addr` becomes the slot's.
    pub open spec fn settling(self, tid: int, sid: int, addr: usize) -> World {
        if addr == 0 {
            self
        } else {
            self.with_block(
                addr,
                Block {
                    lenders: self.blocks[addr].lenders.remove(tid),
                    holders: self.blocks[addr].holders.insert(sid),
                    ..self.blocks[addr]
                },
            )
        }
    }

    /// The slot's reference to `addr` becomes a handle of the caller's.
    pub open spec fn yielding(self, sid: int, addr: usize) -> World {
        if addr == 0 {
            self
        } else {
            self.with_block(
                addr,
                Block {
                    holders: self.blocks[addr].holders.remove(sid),
                    handles: self.blocks[addr].handles + 1,
                    ..self.blocks[addr]
                },
            )
        }
    }

    /// As one atomic step the slot of `tid`'s operation gives its reference
    /// to the caller and takes the one that `tid` counted to `new`, and the
    /// operation ends.
    pub open spec fn trading(self, tid: int, new: usize) -> World {
        let sid = self.tasks[tid].slot;
        self.yielding(sid, self.slots[sid].word).settling(tid, sid, new).storing(
            sid,
            new,
        ).without_task(tid)
    }

    /// Thread `tid` takes back the reference it counted to `addr`.
    pub open spec fn recalling(self, tid: int, addr: usize) -> World {
        if addr == 0 {
            self
        } else {
            World {
                clock: self.clock + 1,
                ..self.with_block(
                    addr,
                    Block {
                        lenders: self.blocks[addr].lenders.remove(tid),
                        ..self.blocks[addr].released(self.clock)
                    },
                )
            }
        }
    }

    /// The slot `sid` goes, and with it the reference it holds to `addr`.
    pub open spec fn dissolving(self, sid: int, addr: usize) -> World {
        if addr == 0 {
            World { slots: self.slots.remove(sid), ..self }
        } else {
            World {
                slots: self.slots.remove(sid),
                clock: self.clock + 1,
                ..self.with_block(
                    addr,
                    Block {
                        holders: self.blocks[addr].holders.remove(sid),
                        ..self.blocks[addr].released(self.clock)
                    },
                )
            }
        }
    }

    /// Every guard that is pinned now was pinned after `addr` was retired.
    pub open spec fn quiescent(self, addr: usize) -> bool {
        forall|tid: int| #[trigger]
            self.tasks.contains_key(tid) ==> (self.tasks[tid].pinned matches Some(at) ==> at
                > self.blocks[addr].retired_at)
    }

    /// A client holds a handle to `addr`, or `addr` is null.
    pub open spec fn owns(self, addr: usize) -> bool {
        addr == 0 || (self.blocks.contains_key(addr) && self.blocks[addr].handles >= 1)
    }
}

/// Whether `tid`'s attempt to count a reference to the address it read
/// succeeds.
pub open spec fn acquires(w: World, tid: int, contended: bool) -> bool {
    let addr = w.tasks[tid].reads();
    addr == 0 || (!contended && guarded_successor(w.blocks[addr].count) is Some)
}

/// Whether the compare-exchange that `tid` is about to make replaces the
/// slot's value.
pub open spec fn exchanges(w: World, tid: int, spurious: bool) -> bool {
    match w.tasks[tid].stage {
        Stage::Exchanging { current, new, weak } => w.slots[w.tasks[tid].slot].word == current && !(
        weak && spurious),
        _ => false,
    }
}

/// The step can be taken.
pub open spec fn enabled(w: World, s: Step) -> bool {
    match s {
        Step::Allocate { addr } => addr != 0 && (!w.blocks.contains_key(addr)
            || w.blocks[addr].freed),
        Step::Clone { addr } => addr != 0 && w.owns(addr),
        Step::Drop { addr } => addr != 0 && w.owns(addr),
        Step::NewSlot { sid, addr } => !w.slots.contains_key(sid) && w.owns(addr),
        Step::BeginLoad { tid, sid, retry } => !w.tasks.contains_key(tid) && w.slots.contains_key(
            sid,
        ),
        Step::Read { tid } => w.tasks.contains_key(tid) && w.tasks[tid].stage is Reading,
        Step::Acquire { tid, contended } => w.tasks.contains_key(tid)
            && w.tasks[tid].stage is Acquiring,
        Step::GiveUp { tid } => w.tasks.contains_key(tid) && w.tasks[tid].stage is Reading
            && w.tasks[tid].retry,
        Step::BeginExchange { tid, sid, current, new, weak } => !w.tasks.contains_key(tid)
            && w.slots.contains_key(sid) && w.owns(new),
        Step::Cas { tid, spurious } => w.tasks.contains_key(tid)
            && w.tasks[tid].stage is Exchanging,
        Step::Undo { tid } => w.tasks.contains_key(tid) && w.tasks[tid].stage is Undoing,
        Step::BeginSwap { tid, sid, new } => !w.tasks.contains_key(tid) && w.slots.contains_key(sid)
            && w.owns(new),
        Step::Swap { tid } => w.tasks.contains_key(tid) && w.tasks[tid].stage is Swapping,
        Step::Release { sid } => w.slots.contains_key(sid) && w.idle(sid),
        Step::Free { addr } => w.blocks.contains_key(addr) && w.blocks[addr].retired >= 1
            && !w.blocks[addr].freed && w.quiescent(addr),
    }
}

/// The world after the step.
pub open spec fn next(w: World, s: Step) -> World {
    match s {
        Step::Allocate { addr } => w.with_block(addr, Block::fresh()),
        Step::Clone { addr } => w.with_block(
            addr,
            Block { handles: w.blocks[addr].handles + 1, ..w.blocks[addr].counted() },
        ),
        Step::Drop { addr } => World {
            clock: w.clock + 1,
            ..w.with_block(
                addr,
                Block {
                    handles: (w.blocks[addr].handles - 1) as nat,
                    ..w.blocks[addr].released(w.clock)
                },
            )
        },
        Step::NewSlot { sid, addr } => {
            let slots = w.slots.insert(sid, Slot { word: addr, history: seq![addr] });
            if addr == 0 {
                World { slots, ..w }
            } else {
                World {
                    slots,
                    ..w.with_block(
                        addr,
                        Block {
                            holders: w.blocks[addr].holders.insert(sid),
                            ..w.blocks[addr].counted()
                        },
                    )
                }
            }
        },
        Step::BeginLoad { tid, sid, retry } => World {
            tasks: w.tasks.insert(
                tid,
                Task {
                    slot: sid,
                    stage: Stage::Reading,
                    pinned: Some(w.clock),
                    began: w.now(sid),
                    retry,
                    failed: false,
                },
            ),
            clock: w.clock + 1,
            ..w
        },
        Step::Read { tid } => {
            let sid = w.tasks[tid].slot;
            w.with_stage(tid, Stage::Acquiring { addr: w.slots[sid].word, seen_at: w.now(sid) })
        },
        Step::Acquire { tid, contended } => {
            let addr = w.tasks[tid].reads();
            if acquires(w, tid, contended) {
                if addr == 0 {
                    w.without_task(tid)
                } else {
                    w.with_block(
                        addr,
                        Block {
                            count: guarded_successor(w.blocks[addr].count)->0,
                            handles: w.blocks[addr].handles + 1,
                            ..w.blocks[addr]
                        },
                    ).without_task(tid)
                }
            } else if w.tasks[tid].retry {
                w.with_stage(tid, Stage::Reading)
            } else {
                w.without_task(tid)
            }
        },
        Step::GiveUp { tid } => w.without_task(tid),
        Step::BeginExchange { tid, sid, current, new, weak } => World {
            tasks: w.tasks.insert(
                tid,
                Task {
                    slot: sid,
                    stage: Stage::Exchanging { current, new, weak },
                    pinned: Some(w.clock),
                    began: w.now(sid),
                    retry: true,
                    failed: false,
                },
            ),
            clock: w.clock + 1,
            ..w.lending(tid, new)
        },
        Step::Cas { tid, spurious } => {
            match w.tasks[tid].stage {
                Stage::Exchanging { current, new, weak } => {
                    let sid = w.tasks[tid].slot;
                    if exchanges(w, tid, spurious) {
                        w.trading(tid, new)
                    } else {
                        World {
                            tasks: w.tasks.insert(
                                tid,
                                Task {
                                    stage: Stage::Undoing {
                                        new,
                                        seen: w.slots[sid].word,
                                        seen_at: w.now(sid),
                                    },
                                    failed: true,
                                    ..w.tasks[tid]
                                },
                            ),
                            ..w
                        }
                    }
                },
                _ => w,
            }
        },
        Step::Undo { tid } => {
            match w.tasks[tid].stage {
                Stage::Undoing { new, seen, seen_at } => w.recalling(tid, new).with_stage(
                    tid,
                    Stage::Acquiring { addr: seen, seen_at },
                ),
                _ => w,
            }
        },
        Step::BeginSwap { tid, sid, new } => World {
            tasks: w.tasks.insert(
                tid,
                Task {
                    slot: sid,
                    stage: Stage::Swapping { new },
                    pinned: None,
                    began: w.now(sid),
                    retry: false,
                    failed: false,
                },
            ),
            ..w.lending(tid, new)
        },
        Step::Swap { tid } => {
            match w.tasks[tid].stage {
                Stage::Swapping { new } => w.trading(tid, new),
                _ => w,
            }
        },
        Step::Release { sid } => w.dissolving(sid, w.slots[sid].word),
        Step::Free { addr } => w.with_block(addr, Block { freed: true, ..w.blocks[addr] }),
    }
}

/// What the step hands to the caller of the operation it finishes, if it
/// finishes one.
pub open spec fn outcome(w: World, s: Step) -> Option<Outcome> {
    match s {
        Step::Acquire { tid, contended } => {
            if acquires(w, tid, contended) {
                if w.tasks[tid].failed {
                    Some(Outcome::Kept(w.tasks[tid].reads()))
                } else {
                    Some(Outcome::Loaded(w.tasks[tid].reads()))
                }
            } else if w.tasks[tid].retry {
                None
            } else {
                Some(Outcome::Stale)
            }
        },
        Step::GiveUp { tid } => {
            if w.tasks[tid].failed {
                Some(Outcome::Unsettled)
            } else {
                Some(Outcome::Stale)
            }
        },
        Step::Cas { tid, spurious } => {
            match w.tasks[tid].stage {
                Stage::Exchanging { current, new, weak } => {
                    if exchanges(w, tid, spurious) {
                        Some(Outcome::Swapped(current))
                    } else {
                        None
                    }
                },
                _ => None,
            }
        },
        Step::Swap { tid } => Some(Outcome::Replaced(w.slots[w.tasks[tid].slot].word)),
        _ => None,
    }
}

/// Every step of the run can be taken when its turn comes.
pub open spec fn admissible(run: Seq<Step>) -> bool
    decreases run.len(),
{
    run.len() == 0 || (admissible(run.drop_last()) && enabled(
        reached(run.drop_last()),
        run.last(),
    ))
}

/// The world that the run leads to from the empty one.
pub open spec fn reached(run: Seq<Step>) -> World
    decreases run.len(),
{
    if run.len() == 0 {
        World::empty()
    } else {
        next(reached(run.drop_last()), run.last())
    }
}

} // verus!
