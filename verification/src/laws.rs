//! What the protocol guarantees, whatever the threads do and in whatever
//! order: each law is stated of the world that an arbitrary admissible run of
//! the model has reached, and of a step taken there.

use vstd::prelude::*;
use crate::model::{
    acquires, admissible, enabled, exchanges, next, outcome, reached, Outcome, Stage, Step, World,
};
use crate::rules::{guarded_successor, owned, releases_last, sole_owner};
use crate::safety::{block_inv, lemma_reached, lemma_step, slot_inv, task_inv};

verus! {

/// Nobody refers to the block: no client, no slot, no exchange under way.
pub open spec fn unreferenced(w: World, addr: usize) -> bool {
    let b = w.blocks[addr];
    b.handles == 0 && b.holders.len() == 0 && b.lenders.len() == 0
}

/// The count of a block is the number of references to it, so it is positive
/// for whoever holds one: an unguarded increment by the holder of a handle
/// finds a live count, and a release never takes the count below zero.
pub proof fn law_owner_finds_live_count(run: Seq<Step>, addr: usize)
    requires
        admissible(run),
        addr != 0,
        reached(run).owns(addr),
    ensures
        owned(reached(run).blocks[addr].count),
{
    lemma_reached(run);
    assert(block_inv(reached(run), addr));
}

/// The count of a block is the number of references to it: the handles that
/// clients hold, the slots that hold it, and the references that unfinished
/// exchanges have counted ahead. This holds after any run, whatever the
/// threads did and in whatever order.
pub proof fn law_count_is_the_number_of_references(run: Seq<Step>, addr: usize)
    requires
        admissible(run),
        reached(run).blocks.contains_key(addr),
    ensures
        ({
            let b = reached(run).blocks[addr];
            b.count == b.handles + b.holders.len() + b.lenders.len()
        }),
{
    lemma_reached(run);
    assert(block_inv(reached(run), addr));
}

/// A clone by the holder of a handle finds a live count, which is what
/// `rules::owned` asks, and leaves it one higher. The block is not handed to
/// the collector, and the new handle is counted.
pub proof fn law_clone_counts_one_more(run: Seq<Step>, addr: usize)
    requires
        admissible(run),
        enabled(reached(run), Step::Clone { addr }),
    ensures
        ({
            let b = reached(run).blocks[addr];
            let c = next(reached(run), Step::Clone { addr }).blocks[addr];
            &&& owned(b.count)
            &&& c.count == b.count + 1
            &&& c.handles == b.handles + 1
            &&& c.retired == 0
            &&& !c.freed
        }),
{
    lemma_reached(run);
    assert(block_inv(reached(run), addr));
}

/// The release of a handle takes one from the count. The block goes to the
/// collector exactly when `rules::releases_last` says so of the count found,
/// which is when the handle was the last reference; while another handle, a
/// slot or an exchange under way refers to the block, nothing is handed over.
pub proof fn law_release_counts_one_less(run: Seq<Step>, addr: usize)
    requires
        admissible(run),
        enabled(reached(run), Step::Drop { addr }),
    ensures
        ({
            let b = reached(run).blocks[addr];
            let c = next(reached(run), Step::Drop { addr }).blocks[addr];
            &&& b.count >= 1
            &&& c.count == b.count - 1
            &&& c.handles == b.handles - 1
            &&& b.retired == 0
            &&& !b.freed
            &&& c.retired == (if releases_last(b.count) {
                1nat
            } else {
                0nat
            })
            &&& releases_last(b.count) <==> unreferenced(
                next(reached(run), Step::Drop { addr }),
                addr,
            )
            &&& !c.freed
        }),
{
    let w = reached(run);
    lemma_reached(run);
    assert(block_inv(w, addr));
    lemma_step(w, Step::Drop { addr });
    assert(block_inv(next(w, Step::Drop { addr }), addr));
}

/// A guarded increment goes ahead exactly when `rules::guarded_successor`
/// has a count to install, which is when somebody still refers to the block;
/// it then leaves the count one higher and the block with one handle more.
pub proof fn law_guarded_increment_counts_the_living(run: Seq<Step>, tid: int)
    requires
        admissible(run),
        enabled(reached(run), Step::Acquire { tid, contended: false }),
        reached(run).tasks[tid].reads() != 0,
    ensures
        ({
            let w = reached(run);
            let addr = w.tasks[tid].reads();
            let b = w.blocks[addr];
            let c = next(w, Step::Acquire { tid, contended: false }).blocks[addr];
            &&& w.blocks.contains_key(addr)
            &&& !b.freed
            &&& acquires(w, tid, false) <==> guarded_successor(b.count) is Some
            &&& acquires(w, tid, false) <==> !unreferenced(w, addr)
            &&& acquires(w, tid, false) ==> c.count == b.count + 1 && c.handles == b.handles + 1
            &&& !acquires(w, tid, false) ==> c == b
        }),
{
    let w = reached(run);
    lemma_reached(run);
    assert(task_inv(w, tid));
    assert(block_inv(w, w.tasks[tid].reads()));
}

/// A block is handed to the collector exactly once: not while anybody refers
/// to it, and once as soon as nobody does. It is freed only after that.
pub proof fn law_retired_exactly_once(run: Seq<Step>, addr: usize)
    requires
        admissible(run),
        reached(run).blocks.contains_key(addr),
    ensures
        reached(run).blocks[addr].retired <= 1,
        reached(run).blocks[addr].retired == 1 <==> unreferenced(reached(run), addr),
        reached(run).blocks[addr].freed ==> reached(run).blocks[addr].retired == 1,
{
    lemma_reached(run);
    assert(block_inv(reached(run), addr));
}

/// Death is final: once nobody refers to a block, no step brings a reference
/// back or hands the block to the collector again. Only a new allocation at
/// the address, after the collector has freed it, starts over.
pub proof fn law_death_is_final(run: Seq<Step>, s: Step, addr: usize)
    requires
        admissible(run),
        enabled(reached(run), s),
        reached(run).blocks.contains_key(addr),
        unreferenced(reached(run), addr),
        s != (Step::Allocate { addr }),
    ensures
        next(reached(run), s).blocks.contains_key(addr),
        unreferenced(next(reached(run), s), addr),
        next(reached(run), s).blocks[addr].count == 0,
        next(reached(run), s).blocks[addr].retired == 1,
{
    let w = reached(run);
    lemma_reached(run);
    assert(block_inv(w, addr));
    assert(w.blocks[addr].count == 0);
    assert(w.blocks[addr].holders =~= Set::empty());
    assert(w.blocks[addr].lenders =~= Set::empty());
    match s {
        Step::NewSlot { sid, addr: a } => {},
        Step::Acquire { tid, contended } => {},
        Step::BeginExchange { tid, sid, current, new, weak } => {},
        Step::BeginSwap { tid, sid, new } => {},
        Step::Cas { tid, spurious } => {
            assert(task_inv(w, tid));
            let sid = w.tasks[tid].slot;
            assert(slot_inv(w, sid));
            if w.tasks[tid].lends() == addr {
                assert(w.blocks[addr].lenders.contains(tid));
            }
            if w.slots[sid].word == addr {
                assert(w.blocks[addr].holders.contains(sid));
            }
        },
        Step::Swap { tid } => {
            assert(task_inv(w, tid));
            let sid = w.tasks[tid].slot;
            assert(slot_inv(w, sid));
            if w.tasks[tid].lends() == addr {
                assert(w.blocks[addr].lenders.contains(tid));
            }
            if w.slots[sid].word == addr {
                assert(w.blocks[addr].holders.contains(sid));
            }
        },
        Step::Undo { tid } => {
            assert(task_inv(w, tid));
            if w.tasks[tid].lends() == addr {
                assert(w.blocks[addr].lenders.contains(tid));
            }
        },
        Step::Release { sid } => {
            assert(slot_inv(w, sid));
            if w.slots[sid].word == addr {
                assert(w.blocks[addr].holders.contains(sid));
            }
        },
        _ => {},
    }
}

/// A block goes to the collector in the very step that releases the last
/// reference to it: a handle is released, a slot is given up, or an exchange
/// takes back what it had counted, and the count falls from one to zero.
pub proof fn law_retired_by_the_last_release(run: Seq<Step>, s: Step, addr: usize)
    requires
        admissible(run),
        enabled(reached(run), s),
        reached(run).blocks.contains_key(addr),
        reached(run).blocks[addr].retired == 0,
        next(reached(run), s).blocks[addr].retired == 1,
    ensures
        reached(run).blocks[addr].count == 1,
        next(reached(run), s).blocks[addr].count == 0,
        s is Drop || s is Release || s is Undo,
{
    let w = reached(run);
    lemma_reached(run);
    assert(block_inv(w, addr));
    match s {
        Step::Cas { tid, spurious } => {
            assert(task_inv(w, tid));
            assert(slot_inv(w, w.tasks[tid].slot));
        },
        Step::Swap { tid } => {
            assert(task_inv(w, tid));
            assert(slot_inv(w, w.tasks[tid].slot));
        },
        Step::Undo { tid } => {
            assert(task_inv(w, tid));
        },
        Step::Release { sid } => {
            assert(slot_inv(w, sid));
        },
        _ => {},
    }
}

/// A guarded increment fails only on a dead block, or for want of tries: the
/// word that a `load` repeats its read for was stale.
pub proof fn law_stale_means_dead(run: Seq<Step>, tid: int)
    requires
        admissible(run),
        enabled(reached(run), Step::Acquire { tid, contended: false }),
        !acquires(reached(run), tid, false),
    ensures
        reached(run).blocks.contains_key(reached(run).tasks[tid].reads()),
        unreferenced(reached(run), reached(run).tasks[tid].reads()),
        reached(run).blocks[reached(run).tasks[tid].reads()].retired == 1,
{
    let w = reached(run);
    lemma_reached(run);
    assert(task_inv(w, tid));
    assert(block_inv(w, w.tasks[tid].reads()));
}

/// The collector frees a block only when nobody refers to it and no
/// operation that read its address from a slot is still under way.
pub proof fn law_free_disturbs_nobody(run: Seq<Step>, addr: usize, tid: int)
    requires
        admissible(run),
        enabled(reached(run), Step::Free { addr }),
    ensures
        unreferenced(reached(run), addr),
        reached(run).tasks.contains_key(tid) ==> reached(run).tasks[tid].reads() != addr,
{
    let w = reached(run);
    lemma_reached(run);
    assert(block_inv(w, addr));
    if w.tasks.contains_key(tid) {
        assert(task_inv(w, tid));
    }
}

/// An operation that has read an address from a slot and has yet to count a
/// reference to the block finds the block where it was: the collector has not
/// freed it, however many handles were released meanwhile.
pub proof fn law_reader_finds_block(run: Seq<Step>, tid: int)
    requires
        admissible(run),
        reached(run).tasks.contains_key(tid),
        reached(run).tasks[tid].reads() != 0,
    ensures
        reached(run).blocks.contains_key(reached(run).tasks[tid].reads()),
        !reached(run).blocks[reached(run).tasks[tid].reads()].freed,
{
    lemma_reached(run);
    assert(task_inv(reached(run), tid));
}

/// A handle that `load`, `try_load` or a failed compare-exchange returns is
/// null or refers to a live block: the block is counted for the handle, has
/// not been handed to the collector and has not been freed.
pub proof fn law_loaded_handle_is_live(run: Seq<Step>, s: Step, addr: usize)
    requires
        admissible(run),
        enabled(reached(run), s),
        outcome(reached(run), s) == Some(Outcome::Loaded(addr)) || outcome(reached(run), s) == Some(
            Outcome::Kept(addr),
        ),
        addr != 0,
    ensures
        next(reached(run), s).owns(addr),
        next(reached(run), s).blocks[addr].count >= 1,
        next(reached(run), s).blocks[addr].retired == 0,
        !next(reached(run), s).blocks[addr].freed,
{
    let w = reached(run);
    lemma_reached(run);
    match s {
        Step::Acquire { tid, contended } => {
            assert(task_inv(w, tid));
            assert(block_inv(w, addr));
        },
        _ => {},
    }
}

/// A compare-exchange succeeds exactly when the slot holds `current` at the
/// moment of the attempt, unless it is a weak one that fails for no reason.
/// It then returns the latest value of the slot's history and appends `new`:
/// the successes on one slot are in one order, each replacing what the one
/// before it stored.
pub proof fn law_success_replaces_the_latest(run: Seq<Step>, tid: int, spurious: bool)
    requires
        admissible(run),
        enabled(reached(run), Step::Cas { tid, spurious }),
        exchanges(reached(run), tid, spurious),
    ensures
        ({
            let w = reached(run);
            let v = next(w, Step::Cas { tid, spurious });
            let sid = w.tasks[tid].slot;
            &&& outcome(w, Step::Cas { tid, spurious }) == Some(
                Outcome::Swapped(w.slots[sid].history.last()),
            )
            &&& v.slots[sid].history == w.slots[sid].history.push(w.tasks[tid].lends())
            &&& v.slots[sid].word == w.tasks[tid].lends()
        }),
{
    let w = reached(run);
    lemma_reached(run);
    assert(task_inv(w, tid));
    assert(slot_inv(w, w.tasks[tid].slot));
}

/// A swap returns the latest value of the slot's history and appends `new`.
pub proof fn law_swap_replaces_the_latest(run: Seq<Step>, tid: int)
    requires
        admissible(run),
        enabled(reached(run), Step::Swap { tid }),
    ensures
        ({
            let w = reached(run);
            let v = next(w, Step::Swap { tid });
            let sid = w.tasks[tid].slot;
            &&& outcome(w, Step::Swap { tid }) == Some(
                Outcome::Replaced(w.slots[sid].history.last()),
            )
            &&& v.slots[sid].history == w.slots[sid].history.push(w.tasks[tid].lends())
            &&& v.slots[sid].word == w.tasks[tid].lends()
        }),
{
    let w = reached(run);
    lemma_reached(run);
    assert(task_inv(w, tid));
    assert(slot_inv(w, w.tasks[tid].slot));
}

/// Nothing else writes to a slot: a compare-exchange that fails leaves every
/// slot as it was, and so does every step that neither makes nor gives up a
/// slot.
pub proof fn law_only_exchanges_write(run: Seq<Step>, s: Step)
    requires
        admissible(run),
        enabled(reached(run), s),
        !(s is NewSlot),
        !(s is Release),
        !(s is Swap),
        s matches Step::Cas { tid, spurious } ==> !exchanges(reached(run), tid, spurious),
    ensures
        next(reached(run), s).slots == reached(run).slots,
{
    let w = reached(run);
    lemma_reached(run);
    match s {
        Step::Cas { tid, spurious } => {
            assert(task_inv(w, tid));
        },
        _ => {},
    }
}

/// The handle that a failed compare-exchange returns refers to a value that
/// its slot held at some moment between the call and the return.
pub proof fn law_failure_reports_a_held_value(
    run: Seq<Step>,
    tid: int,
    contended: bool,
    addr: usize,
)
    requires
        admissible(run),
        enabled(reached(run), Step::Acquire { tid, contended }),
        outcome(reached(run), Step::Acquire { tid, contended }) == Some(Outcome::Kept(addr)),
    ensures
        ({
            let w = reached(run);
            let k = w.tasks[tid];
            let history = w.slots[k.slot].history;
            exists|at: int| k.began <= at < history.len() && #[trigger] history[at] == addr
        }),
{
    let w = reached(run);
    lemma_reached(run);
    assert(task_inv(w, tid));
    let k = w.tasks[tid];
    match k.stage {
        Stage::Acquiring { addr: a, seen_at } => {
            assert(w.slots[k.slot].history[seen_at as int] == addr);
        },
        _ => {},
    }
}

/// A handle reads a count of one exactly when it is the only reference to its
/// block: while a second handle exists, or a slot holds the block, or an
/// exchange has counted it ahead, the count is larger.
pub proof fn law_sole_owner_is_alone(run: Seq<Step>, addr: usize)
    requires
        admissible(run),
        addr != 0,
        reached(run).owns(addr),
    ensures
        sole_owner(reached(run).blocks[addr].count) <==> {
            &&& reached(run).blocks[addr].handles == 1
            &&& reached(run).blocks[addr].holders.len() == 0
            &&& reached(run).blocks[addr].lenders.len() == 0
        },
{
    lemma_reached(run);
    assert(block_inv(reached(run), addr));
}

} // verus!
