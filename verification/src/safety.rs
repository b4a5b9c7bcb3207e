//! What holds in every world that the protocol can reach, and the proof that
//! each step keeps it.

use vstd::prelude::*;
use crate::model::{admissible, enabled, exchanges, next, reached, Stage, Step, Task, World};

verus! {

/// The count of the block at `addr` is the number of references to it: the
/// clients' handles, the slots', and those counted ahead by unfinished
/// exchanges. The block was handed to the collector once if that number is
/// zero and never otherwise, and it is freed only after that.
pub open spec fn block_inv(w: World, addr: usize) -> bool {
    let b = w.blocks[addr];
    &&& b.holders.finite()
    &&& b.lenders.finite()
    &&& b.count == b.handles + b.holders.len() + b.lenders.len()
    &&& b.retired == (if b.count == 0 {
        1nat
    } else {
        0nat
    })
    &&& (b.freed ==> b.count == 0)
    &&& (b.count == 0 ==> b.retired_at < w.clock)
    &&& forall|sid: int| #[trigger] b.holders.contains(sid) ==> known_holder(w, addr, sid)
    &&& forall|tid: int| #[trigger] b.lenders.contains(tid) ==> known_lender(w, addr, tid)
}

/// The slot exists and holds `addr`.
pub open spec fn known_holder(w: World, addr: usize, sid: int) -> bool {
    w.slots.contains_key(sid) && w.slots[sid].word == addr
}

/// The task exists and has counted a reference to `addr` ahead.
pub open spec fn known_lender(w: World, addr: usize, tid: int) -> bool {
    w.tasks.contains_key(tid) && w.tasks[tid].lends() == addr
}

/// A slot's history ends in its word, and the block that the word names knows
/// of the slot.
pub open spec fn slot_inv(w: World, sid: int) -> bool {
    let s = w.slots[sid];
    &&& s.history.len() > 0
    &&& s.history.last() == s.word
    &&& (s.word != 0 ==> w.blocks.contains_key(s.word) && w.blocks[s.word].holders.contains(sid))
}

/// The address that a task read from its slot was in the slot while the task
/// ran.
pub open spec fn seen_in_time(w: World, k: Task, addr: usize, seen_at: nat) -> bool {
    k.began <= seen_at < w.slots[k.slot].history.len() && w.slots[k.slot].history[seen_at as int]
        == addr
}

/// An unfinished operation works on a slot that exists and holds a guard
/// unless it is a swap; the block it counted ahead knows of it; and the block
/// whose address it read has not been freed, and was retired, if at all, after
/// the operation pinned.
pub open spec fn task_inv(w: World, tid: int) -> bool {
    let k = w.tasks[tid];
    &&& w.slots.contains_key(k.slot)
    &&& k.began < w.slots[k.slot].history.len()
    &&& (k.pinned matches Some(at) ==> at < w.clock)
    &&& (k.stage is Swapping <==> k.pinned is None)
    &&& (k.failed || k.stage is Exchanging ==> k.retry)
    &&& (k.lends() != 0 ==> {
        &&& w.blocks.contains_key(k.lends())
        &&& w.blocks[k.lends()].lenders.contains(tid)
    })
    &&& (k.reads() != 0 ==> {
        &&& w.blocks.contains_key(k.reads())
        &&& !w.blocks[k.reads()].freed
        &&& (w.blocks[k.reads()].count == 0 ==> k.pinned->0 < w.blocks[k.reads()].retired_at)
    })
    &&& match k.stage {
        Stage::Acquiring { addr, seen_at } => seen_in_time(w, k, addr, seen_at),
        Stage::Undoing { new, seen, seen_at } => seen_in_time(w, k, seen, seen_at),
        _ => true,
    }
}

/// The invariant of the protocol.
pub open spec fn inv(w: World) -> bool {
    &&& !w.blocks.contains_key(0)
    &&& forall|addr: usize| #[trigger] w.blocks.contains_key(addr) ==> block_inv(w, addr)
    &&& forall|sid: int| #[trigger] w.slots.contains_key(sid) ==> slot_inv(w, sid)
    &&& forall|tid: int| #[trigger] w.tasks.contains_key(tid) ==> task_inv(w, tid)
}

/// A step that leaves the slots and the tasks alone, and each block's sets of
/// holders and lenders, keeps the two halves of the invariant that speak of
/// them, once the blocks are in order.
proof fn lemma_blocks_only(w: World, v: World)
    requires
        inv(w),
        v.slots == w.slots,
        v.tasks == w.tasks,
        v.clock >= w.clock,
        v.blocks.dom() == w.blocks.dom(),
        forall|addr: usize| #[trigger] v.blocks.contains_key(addr) ==> block_inv(v, addr),
        forall|addr: usize| #[trigger]
            w.blocks.contains_key(addr) ==> {
                &&& v.blocks[addr].holders == w.blocks[addr].holders
                &&& v.blocks[addr].lenders == w.blocks[addr].lenders
                &&& v.blocks[addr].freed == w.blocks[addr].freed
                &&& (v.blocks[addr].count == 0 ==> w.blocks[addr].count == 0
                    && v.blocks[addr].retired_at == w.blocks[addr].retired_at
                    || v.blocks[addr].retired_at == w.clock)
            },
    ensures
        inv(v),
{
    assert forall|sid: int| #[trigger] v.slots.contains_key(sid) implies slot_inv(v, sid) by {
        assert(slot_inv(w, sid));
        let word = w.slots[sid].word;
        if word != 0 {
            assert(w.blocks.contains_key(word));
        }
    }
    assert forall|tid: int| #[trigger] v.tasks.contains_key(tid) implies task_inv(v, tid) by {
        assert(task_inv(w, tid));
        let k = w.tasks[tid];
        if k.lends() != 0 {
            assert(w.blocks.contains_key(k.lends()));
        }
        if k.reads() != 0 {
            assert(w.blocks.contains_key(k.reads()));
            assert(block_inv(w, k.reads()));
        }
    }
}

proof fn lemma_empty()
    ensures
        inv(World::empty()),
{
}

proof fn lemma_allocate(w: World, addr: usize)
    requires
        inv(w),
        enabled(w, Step::Allocate { addr }),
    ensures
        inv(next(w, Step::Allocate { addr })),
{
    let v = next(w, Step::Allocate { addr });
    if w.blocks.contains_key(addr) {
        assert(block_inv(w, addr));
        assert(w.blocks[addr].lenders.len() == 0);
        assert(w.blocks[addr].holders.len() == 0);
    }
    assert forall|a: usize| #[trigger] v.blocks.contains_key(a) implies block_inv(v, a) by {
        if a != addr {
            assert(block_inv(w, a));
        }
    }
    assert forall|sid: int| #[trigger] v.slots.contains_key(sid) implies slot_inv(v, sid) by {
        assert(slot_inv(w, sid));
        if w.slots[sid].word == addr {
            assert(w.blocks[addr].holders.contains(sid));
        }
    }
    assert forall|tid: int| #[trigger] v.tasks.contains_key(tid) implies task_inv(v, tid) by {
        assert(task_inv(w, tid));
        let k = w.tasks[tid];
        if k.lends() == addr {
            assert(w.blocks[addr].lenders.contains(tid));
        }
    }
}

proof fn lemma_clone(w: World, addr: usize)
    requires
        inv(w),
        enabled(w, Step::Clone { addr }),
    ensures
        inv(next(w, Step::Clone { addr })),
{
    let v = next(w, Step::Clone { addr });
    assert(block_inv(w, addr));
    assert forall|a: usize| #[trigger] v.blocks.contains_key(a) implies block_inv(v, a) by {
        assert(block_inv(w, a));
    }
    assert(v.blocks.dom() =~= w.blocks.dom());
    lemma_blocks_only(w, v);
}

proof fn lemma_drop(w: World, addr: usize)
    requires
        inv(w),
        enabled(w, Step::Drop { addr }),
    ensures
        inv(next(w, Step::Drop { addr })),
{
    let v = next(w, Step::Drop { addr });
    assert(block_inv(w, addr));
    assert forall|a: usize| #[trigger] v.blocks.contains_key(a) implies block_inv(v, a) by {
        assert(block_inv(w, a));
    }
    assert(v.blocks.dom() =~= w.blocks.dom());
    lemma_blocks_only(w, v);
}

proof fn lemma_free(w: World, addr: usize)
    requires
        inv(w),
        enabled(w, Step::Free { addr }),
    ensures
        inv(next(w, Step::Free { addr })),
{
    let v = next(w, Step::Free { addr });
    assert(block_inv(w, addr));
    assert forall|a: usize| #[trigger] v.blocks.contains_key(a) implies block_inv(v, a) by {
        assert(w.blocks.contains_key(a));
        assert(block_inv(w, a));
    }
    assert forall|sid: int| #[trigger] v.slots.contains_key(sid) implies slot_inv(v, sid) by {
        assert(slot_inv(w, sid));
    }
    assert forall|tid: int| #[trigger] v.tasks.contains_key(tid) implies task_inv(v, tid) by {
        assert(task_inv(w, tid));
    }
}

proof fn lemma_new_slot(w: World, sid: int, addr: usize)
    requires
        inv(w),
        enabled(w, Step::NewSlot { sid, addr }),
    ensures
        inv(next(w, Step::NewSlot { sid, addr })),
{
    let v = next(w, Step::NewSlot { sid, addr });
    if addr != 0 {
        assert(block_inv(w, addr));
        assert(!w.blocks[addr].holders.contains(sid));
    }
    assert forall|a: usize| #[trigger] v.blocks.contains_key(a) implies block_inv(v, a) by {
        assert(w.blocks.contains_key(a));
        assert(block_inv(w, a));
        assert forall|s: int| #[trigger] v.blocks[a].holders.contains(s) implies known_holder(
            v,
            a,
            s,
        ) by {
            if s != sid {
                assert(w.blocks[a].holders.contains(s));
            } else if a != addr {
                assert(w.blocks[a].holders.contains(s));
            }
        }
    }
    assert forall|s: int| #[trigger] v.slots.contains_key(s) implies slot_inv(v, s) by {
        if s != sid {
            assert(slot_inv(w, s));
        }
    }
    assert forall|tid: int| #[trigger] v.tasks.contains_key(tid) implies task_inv(v, tid) by {
        assert(task_inv(w, tid));
    }
}

/// A step that changes one task and nothing else keeps the invariant if the
/// task is in order afterwards and counts no other reference ahead than
/// before.
proof fn lemma_task_only(w: World, v: World, tid: int)
    requires
        inv(w),
        v.blocks == w.blocks,
        v.slots == w.slots,
        v.clock >= w.clock,
        v.tasks.dom() == w.tasks.dom().insert(tid),
        forall|t: int| t != tid && w.tasks.contains_key(t) ==> #[trigger] v.tasks[t] == w.tasks[t],
        task_inv(v, tid),
        v.tasks[tid].lends() == (if w.tasks.contains_key(tid) {
            w.tasks[tid].lends()
        } else {
            0
        }),
    ensures
        inv(v),
{
    assert forall|a: usize| #[trigger] v.blocks.contains_key(a) implies block_inv(v, a) by {
        assert(block_inv(w, a));
        assert forall|t: int| #[trigger] v.blocks[a].lenders.contains(t) implies known_lender(
            v,
            a,
            t,
        ) by {
            assert(w.blocks[a].lenders.contains(t));
        }
    }
    assert forall|sid: int| #[trigger] v.slots.contains_key(sid) implies slot_inv(v, sid) by {
        assert(slot_inv(w, sid));
    }
    assert forall|t: int| #[trigger] v.tasks.contains_key(t) implies task_inv(v, t) by {
        if t != tid {
            assert(w.tasks.contains_key(t));
            assert(task_inv(w, t));
        }
    }
}

/// A step that ends one task and changes nothing else but a block to which
/// the task had counted no reference ahead keeps the invariant.
proof fn lemma_task_ends(w: World, v: World, tid: int)
    requires
        inv(w),
        w.tasks.contains_key(tid),
        w.tasks[tid].lends() == 0,
        v.slots == w.slots,
        v.clock >= w.clock,
        v.tasks == w.tasks.remove(tid),
        v.blocks.dom() == w.blocks.dom(),
        forall|addr: usize| #[trigger] w.blocks.contains_key(addr) ==> {
            &&& v.blocks[addr].holders == w.blocks[addr].holders
            &&& v.blocks[addr].lenders == w.blocks[addr].lenders
            &&& v.blocks[addr].freed == w.blocks[addr].freed
            &&& v.blocks[addr].retired == w.blocks[addr].retired
            &&& v.blocks[addr].retired_at == w.blocks[addr].retired_at
            &&& v.blocks[addr].count - v.blocks[addr].handles == w.blocks[addr].count
                - w.blocks[addr].handles
            &&& (v.blocks[addr].count == 0 <==> w.blocks[addr].count == 0)
        },
    ensures
        inv(v),
{
    assert forall|a: usize| #[trigger] v.blocks.contains_key(a) implies block_inv(v, a) by {
        assert(w.blocks.contains_key(a));
        assert(block_inv(w, a));
        assert forall|t: int| #[trigger] v.blocks[a].lenders.contains(t) implies known_lender(
            v,
            a,
            t,
        ) by {
            assert(w.blocks[a].lenders.contains(t));
        }
    }
    assert forall|sid: int| #[trigger] v.slots.contains_key(sid) implies slot_inv(v, sid) by {
        assert(slot_inv(w, sid));
        if w.slots[sid].word != 0 {
            assert(w.blocks.contains_key(w.slots[sid].word));
        }
    }
    assert forall|t: int| #[trigger] v.tasks.contains_key(t) implies task_inv(v, t) by {
        assert(task_inv(w, t));
        let k = w.tasks[t];
        if k.lends() != 0 {
            assert(w.blocks.contains_key(k.lends()));
        }
        if k.reads() != 0 {
            assert(w.blocks.contains_key(k.reads()));
        }
    }
}

proof fn lemma_begin_load(w: World, tid: int, sid: int, retry: bool)
    requires
        inv(w),
        enabled(w, Step::BeginLoad { tid, sid, retry }),
    ensures
        inv(next(w, Step::BeginLoad { tid, sid, retry })),
{
    let v = next(w, Step::BeginLoad { tid, sid, retry });
    assert(slot_inv(w, sid));
    assert(v.tasks.dom() =~= w.tasks.dom().insert(tid));
    lemma_task_only(w, v, tid);
}

proof fn lemma_read(w: World, tid: int)
    requires
        inv(w),
        enabled(w, Step::Read { tid }),
    ensures
        inv(next(w, Step::Read { tid })),
{
    let v = next(w, Step::Read { tid });
    assert(task_inv(w, tid));
    let sid = w.tasks[tid].slot;
    assert(slot_inv(w, sid));
    if w.slots[sid].word != 0 {
        assert(block_inv(w, w.slots[sid].word));
    }
    assert(v.tasks.dom() =~= w.tasks.dom().insert(tid));
    lemma_task_only(w, v, tid);
}

proof fn lemma_acquire(w: World, tid: int, contended: bool)
    requires
        inv(w),
        enabled(w, Step::Acquire { tid, contended }),
    ensures
        inv(next(w, Step::Acquire { tid, contended })),
{
    let v = next(w, Step::Acquire { tid, contended });
    assert(task_inv(w, tid));
    let addr = w.tasks[tid].reads();
    if addr != 0 {
        assert(block_inv(w, addr));
    }
    if v.tasks.contains_key(tid) {
        assert(v.tasks.dom() =~= w.tasks.dom().insert(tid));
        lemma_task_only(w, v, tid);
    } else {
        assert(v.blocks.dom() =~= w.blocks.dom());
        lemma_task_ends(w, v, tid);
    }
}

proof fn lemma_give_up(w: World, tid: int)
    requires
        inv(w),
        enabled(w, Step::GiveUp { tid }),
    ensures
        inv(next(w, Step::GiveUp { tid })),
{
    lemma_task_ends(w, next(w, Step::GiveUp { tid }), tid);
}

/// A step that begins a task which counts a reference to `new` ahead keeps
/// the invariant.
proof fn lemma_lending(w: World, v: World, tid: int, new: usize)
    requires
        inv(w),
        !w.tasks.contains_key(tid),
        w.owns(new),
        v.blocks == w.lending(tid, new).blocks,
        v.slots == w.slots,
        v.clock >= w.clock,
        v.tasks == w.tasks.insert(tid, v.tasks[tid]),
        v.tasks[tid].lends() == new,
        v.tasks[tid].reads() == 0,
        w.slots.contains_key(v.tasks[tid].slot),
        v.tasks[tid].began == w.now(v.tasks[tid].slot),
        !v.tasks[tid].failed,
        v.tasks[tid].stage is Exchanging ==> v.tasks[tid].retry,
        v.tasks[tid].stage is Swapping <==> v.tasks[tid].pinned is None,
        v.tasks[tid].pinned matches Some(at) ==> at < v.clock,
        v.tasks[tid].stage is Exchanging || v.tasks[tid].stage is Swapping,
    ensures
        inv(v),
{
    assert(slot_inv(w, v.tasks[tid].slot));
    if new != 0 {
        assert(block_inv(w, new));
        assert(!w.blocks[new].lenders.contains(tid));
    }
    assert forall|a: usize| #[trigger] v.blocks.contains_key(a) implies block_inv(v, a) by {
        assert(w.blocks.contains_key(a));
        assert(block_inv(w, a));
        assert forall|t: int| #[trigger] v.blocks[a].lenders.contains(t) implies known_lender(
            v,
            a,
            t,
        ) by {
            if t != tid {
                assert(w.blocks[a].lenders.contains(t));
                assert(w.tasks.contains_key(t));
            } else {
                if a != new {
                    assert(w.blocks[a].lenders.contains(t));
                }
            }
        }
    }
    assert forall|sid: int| #[trigger] v.slots.contains_key(sid) implies slot_inv(v, sid) by {
        assert(slot_inv(w, sid));
    }
    assert forall|t: int| #[trigger] v.tasks.contains_key(t) implies task_inv(v, t) by {
        if t != tid {
            assert(w.tasks.contains_key(t));
            assert(task_inv(w, t));
        }
    }
}

proof fn lemma_begin_exchange(
    w: World,
    tid: int,
    sid: int,
    current: usize,
    new: usize,
    weak: bool,
)
    requires
        inv(w),
        enabled(w, Step::BeginExchange { tid, sid, current, new, weak }),
    ensures
        inv(next(w, Step::BeginExchange { tid, sid, current, new, weak })),
{
    let v = next(w, Step::BeginExchange { tid, sid, current, new, weak });
    assert(v.tasks =~= w.tasks.insert(tid, v.tasks[tid]));
    lemma_lending(w, v, tid, new);
}

proof fn lemma_begin_swap(w: World, tid: int, sid: int, new: usize)
    requires
        inv(w),
        enabled(w, Step::BeginSwap { tid, sid, new }),
    ensures
        inv(next(w, Step::BeginSwap { tid, sid, new })),
{
    let v = next(w, Step::BeginSwap { tid, sid, new });
    assert(v.tasks =~= w.tasks.insert(tid, v.tasks[tid]));
    lemma_lending(w, v, tid, new);
}

/// The slot takes over the reference that `tid` counted to `new`, and gives
/// the one it held to the caller.
proof fn lemma_trade(w: World, tid: int, new: usize)
    requires
        inv(w),
        w.tasks.contains_key(tid),
        w.tasks[tid].lends() == new,
    ensures
        inv(w.trading(tid, new)),
{
    let v = w.trading(tid, new);
    let sid = w.tasks[tid].slot;
    let old = w.slots[sid].word;
    assert(task_inv(w, tid));
    assert(slot_inv(w, sid));
    if new != 0 {
        assert(block_inv(w, new));
    }
    if old != 0 {
        assert(block_inv(w, old));
    }
    assert forall|a: usize| #[trigger] v.blocks.contains_key(a) implies block_inv(v, a) by {
        assert(w.blocks.contains_key(a));
        assert(block_inv(w, a));
        assert forall|t: int| #[trigger] v.blocks[a].lenders.contains(t) implies known_lender(
            v,
            a,
            t,
        ) by {
            assert(w.blocks[a].lenders.contains(t));
        }
        assert forall|s: int| #[trigger] v.blocks[a].holders.contains(s) implies known_holder(
            v,
            a,
            s,
        ) by {
            if s != sid {
                assert(w.blocks[a].holders.contains(s));
            } else if a != new {
                assert(w.blocks[a].holders.contains(s));
            }
        }
        if a != new && a != old {
            assert(v.blocks[a] == w.blocks[a]);
        }
    }
    assert forall|s: int| #[trigger] v.slots.contains_key(s) implies slot_inv(v, s) by {
        if s != sid {
            assert(slot_inv(w, s));
            let word = w.slots[s].word;
            if word != 0 {
                assert(w.blocks[word].holders.contains(s));
            }
        }
    }
    assert forall|t: int| #[trigger] v.tasks.contains_key(t) implies task_inv(v, t) by {
        assert(task_inv(w, t));
        let k = w.tasks[t];
        if k.lends() != 0 {
            assert(w.blocks[k.lends()].lenders.contains(t));
        }
        if k.slot == sid {
            assert(v.slots[sid].history == w.slots[sid].history.push(new));
        }
    }
}

proof fn lemma_cas(w: World, tid: int, spurious: bool)
    requires
        inv(w),
        enabled(w, Step::Cas { tid, spurious }),
    ensures
        inv(next(w, Step::Cas { tid, spurious })),
{
    let v = next(w, Step::Cas { tid, spurious });
    assert(task_inv(w, tid));
    if exchanges(w, tid, spurious) {
        lemma_trade(w, tid, w.tasks[tid].lends());
    } else {
        let sid = w.tasks[tid].slot;
        assert(slot_inv(w, sid));
        if w.slots[sid].word != 0 {
            assert(block_inv(w, w.slots[sid].word));
        }
        assert(v.tasks.dom() =~= w.tasks.dom().insert(tid));
        lemma_task_only(w, v, tid);
    }
}

proof fn lemma_swap(w: World, tid: int)
    requires
        inv(w),
        enabled(w, Step::Swap { tid }),
    ensures
        inv(next(w, Step::Swap { tid })),
{
    lemma_trade(w, tid, w.tasks[tid].lends());
}

proof fn lemma_undo(w: World, tid: int)
    requires
        inv(w),
        enabled(w, Step::Undo { tid }),
    ensures
        inv(next(w, Step::Undo { tid })),
{
    let v = next(w, Step::Undo { tid });
    assert(task_inv(w, tid));
    let new = w.tasks[tid].lends();
    if new != 0 {
        assert(block_inv(w, new));
    }
    assert forall|a: usize| #[trigger] v.blocks.contains_key(a) implies block_inv(v, a) by {
        assert(w.blocks.contains_key(a));
        assert(block_inv(w, a));
        assert forall|t: int| #[trigger] v.blocks[a].lenders.contains(t) implies known_lender(
            v,
            a,
            t,
        ) by {
            assert(w.blocks[a].lenders.contains(t));
        }
    }
    assert forall|sid: int| #[trigger] v.slots.contains_key(sid) implies slot_inv(v, sid) by {
        assert(slot_inv(w, sid));
    }
    assert forall|t: int| #[trigger] v.tasks.contains_key(t) implies task_inv(v, t) by {
        assert(task_inv(w, t));
        let k = w.tasks[t];
        if k.lends() != 0 {
            assert(w.blocks[k.lends()].lenders.contains(t));
        }
    }
}

proof fn lemma_release(w: World, sid: int)
    requires
        inv(w),
        enabled(w, Step::Release { sid }),
    ensures
        inv(next(w, Step::Release { sid })),
{
    let v = next(w, Step::Release { sid });
    let old = w.slots[sid].word;
    assert(slot_inv(w, sid));
    if old != 0 {
        assert(block_inv(w, old));
    }
    assert forall|a: usize| #[trigger] v.blocks.contains_key(a) implies block_inv(v, a) by {
        assert(w.blocks.contains_key(a));
        assert(block_inv(w, a));
        assert forall|s: int| #[trigger] v.blocks[a].holders.contains(s) implies known_holder(
            v,
            a,
            s,
        ) by {
            assert(w.blocks[a].holders.contains(s));
        }
    }
    assert forall|s: int| #[trigger] v.slots.contains_key(s) implies slot_inv(v, s) by {
        assert(slot_inv(w, s));
        let word = w.slots[s].word;
        if word != 0 {
            assert(w.blocks[word].holders.contains(s));
        }
    }
    assert forall|t: int| #[trigger] v.tasks.contains_key(t) implies task_inv(v, t) by {
        assert(task_inv(w, t));
    }
}

/// Every step keeps the invariant.
pub proof fn lemma_step(w: World, s: Step)
    requires
        inv(w),
        enabled(w, s),
    ensures
        inv(next(w, s)),
{
    match s {
        Step::Allocate { addr } => lemma_allocate(w, addr),
        Step::Clone { addr } => lemma_clone(w, addr),
        Step::Drop { addr } => lemma_drop(w, addr),
        Step::NewSlot { sid, addr } => lemma_new_slot(w, sid, addr),
        Step::BeginLoad { tid, sid, retry } => lemma_begin_load(w, tid, sid, retry),
        Step::Read { tid } => lemma_read(w, tid),
        Step::Acquire { tid, contended } => lemma_acquire(w, tid, contended),
        Step::GiveUp { tid } => lemma_give_up(w, tid),
        Step::BeginExchange { tid, sid, current, new, weak } => lemma_begin_exchange(
            w,
            tid,
            sid,
            current,
            new,
            weak,
        ),
        Step::Cas { tid, spurious } => lemma_cas(w, tid, spurious),
        Step::Undo { tid } => lemma_undo(w, tid),
        Step::BeginSwap { tid, sid, new } => lemma_begin_swap(w, tid, sid, new),
        Step::Swap { tid } => lemma_swap(w, tid),
        Step::Release { sid } => lemma_release(w, sid),
        Step::Free { addr } => lemma_free(w, addr),
    }
}

/// The invariant holds in every world that an admissible run reaches.
pub proof fn lemma_reached(run: Seq<Step>)
    requires
        admissible(run),
    ensures
        inv(reached(run)),
    decreases run.len(),
{
    if run.len() == 0 {
        lemma_empty();
    } else {
        lemma_reached(run.drop_last());
        lemma_step(reached(run.drop_last()), run.last());
    }
}

} // verus!
