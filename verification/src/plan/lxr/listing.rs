//! What decrements leave behind for the sweep: the blocks in which objects died, each listed once.

use crate::plan::lxr::rc::{
    all_in_heap, block_of, block_recorded, children_deferred, dead_processed, dec_processed,
    dec_rounds, decs_drained, decs_processed, lemma_decs_processed, DecState,
};
use crate::policy::immix::block::{lemma_block_positions, Block};
use crate::policy::immix::immixspace::ImmixSpaceView;
use crate::util::address::ObjectReference;
use crate::util::metadata::{MetadataView, SpaceKind};
use crate::util::rc::{count_of, decremented, object_straddle};
use crate::util::vm::{ObjectModel, Slot};
use vstd::prelude::*;

verus! {

/// The block is listed for the sweep after decrements.
pub open spec fn is_listed(s: ImmixSpaceView, block: Block) -> bool {
    exists|k: int|
        0 <= k < s.possibly_dead_mature_blocks.len() && (
        #[trigger] s.possibly_dead_mature_blocks[k]).0 == block.0.0
}

/// Exactly the blocks with a log bit are listed, each once.
pub open spec fn logged_blocks_are_listed(m: MetadataView, s: ImmixSpaceView) -> bool {
    &&& forall|block: Block| #[trigger]
        block.valid(m) ==> (m.block_log[block.index(m)] == 1) == is_listed(s, block)
    &&& forall|i: int, j: int|
        0 <= i < j < s.possibly_dead_mature_blocks.len() ==> (
        #[trigger] s.possibly_dead_mature_blocks[i]).0 != (
        #[trigger] s.possibly_dead_mature_blocks[j]).0
}

/// What decrements may do to the list, to the space and to what is handed on: blocks are added to the
/// list, not as sources; packets are added, and go before others outside a pause.
pub open spec fn lists(st: DecState, after: DecState, in_pause: bool) -> bool {
    &&& after.m.start == st.m.start
    &&& after.m.chunks == st.m.chunks
    &&& after.m.block_log.len() == st.m.block_log.len()
    &&& logged_blocks_are_listed(st.m, st.s) ==> logged_blocks_are_listed(after.m, after.s)
    &&& after.s == (ImmixSpaceView {
        possibly_dead_mature_blocks: after.s.possibly_dead_mature_blocks,
        ..st.s
    })
    &&& st.s.possibly_dead_mature_blocks.len() <= after.s.possibly_dead_mature_blocks.len()
    &&& forall|k: int|
        0 <= k < after.s.possibly_dead_mature_blocks.len()
            ==> #[trigger] after.s.possibly_dead_mature_blocks[k] == if k
            < st.s.possibly_dead_mature_blocks.len() {
            st.s.possibly_dead_mature_blocks[k]
        } else {
            (after.s.possibly_dead_mature_blocks[k].0, false)
        }
    &&& st.scheduled.len() <= after.scheduled.len()
    &&& forall|k: int|
        0 <= k < st.scheduled.len() ==> #[trigger] after.scheduled[k] == st.scheduled[k]
    &&& forall|k: int|
        st.scheduled.len() <= k < after.scheduled.len() ==> (#[trigger] after.scheduled[k]).1
            == !in_pause
}

/// Some decrements after others.
proof fn lemma_lists_chain(a: DecState, b: DecState, c: DecState, in_pause: bool)
    requires
        lists(a, b, in_pause),
        lists(b, c, in_pause),
    ensures
        lists(a, c, in_pause),
{
    let x = a.s.possibly_dead_mature_blocks;
    let y = b.s.possibly_dead_mature_blocks;
    let z = c.s.possibly_dead_mature_blocks;
    assert forall|k: int| 0 <= k < z.len() implies #[trigger] z[k] == if k < x.len() {
        x[k]
    } else {
        (z[k].0, false)
    } by {
        if k < y.len() {
            assert(z[k] == y[k]);
        }
    }
    assert forall|k: int| 0 <= k < a.scheduled.len() implies #[trigger] c.scheduled[k]
        == a.scheduled[k] by {
        assert(b.scheduled[k] == a.scheduled[k]);
    }
    assert forall|k: int| a.scheduled.len() <= k < c.scheduled.len() implies (
    #[trigger] c.scheduled[k]).1 == !in_pause by {
        if k < b.scheduled.len() {
            assert(c.scheduled[k] == b.scheduled[k]);
        }
    }
}

/// The fields of a dead object.
proof fn lemma_children_list(
    st: DecState,
    objects: ObjectModel,
    slots: Seq<Slot>,
    in_pause: bool,
)
    ensures
        lists(st, children_deferred(st, objects, slots, in_pause), in_pause),
        children_deferred(st, objects, slots, in_pause).m == st.m,
        children_deferred(st, objects, slots, in_pause).s == st.s,
    decreases slots.len(),
{
    if slots.len() > 0 {
        lemma_children_list(st, objects, slots.drop_last(), in_pause);
        let before = children_deferred(st, objects, slots.drop_last(), in_pause);
        let after = children_deferred(st, objects, slots, in_pause);
        assert(lists(before, after, in_pause));
        lemma_lists_chain(st, before, after, in_pause);
    }
}

/// A block is listed when it is recorded.
proof fn lemma_record_lists(st: DecState, block: Block, in_pause: bool)
    requires
        st.m.wf(),
        block.valid(st.m),
    ensures
        lists(st, block_recorded(st, block), in_pause),
{
    let after = block_recorded(st, block);
    let x = st.s.possibly_dead_mature_blocks;
    let z = after.s.possibly_dead_mature_blocks;
    lemma_block_positions(st.m, block);
    if logged_blocks_are_listed(st.m, st.s) && z.len() > x.len() {
        assert(z[x.len() as int].0 == block.0.0);
        assert forall|other: Block| #[trigger] other.valid(after.m) implies (
        after.m.block_log[other.index(after.m)] == 1) == is_listed(after.s, other) by {
            assert(other.valid(st.m));
            lemma_block_positions(st.m, other);
            if other == block {
                assert(z[x.len() as int].0 == other.0.0);
            } else {
                assert(other.index(st.m) != block.index(st.m)) by {
                    if other.index(st.m) == block.index(st.m) {
                        assert(other.addr() == block.addr());
                    }
                }
                assert(other.0.0 != block.0.0);
                if is_listed(st.s, other) {
                    let k = choose|k: int| 0 <= k < x.len() && (#[trigger] x[k]).0 == other.0.0;
                    assert(z[k].0 == other.0.0);
                }
                if is_listed(after.s, other) {
                    let k = choose|k: int| 0 <= k < z.len() && (#[trigger] z[k]).0 == other.0.0;
                    assert(x[k].0 == other.0.0);
                }
            }
        }
        assert forall|i: int, j: int| 0 <= i < j < z.len() implies (#[trigger] z[i]).0 != (
        #[trigger] z[j]).0 by {
            assert(z[i] == x[i]);
            if j < x.len() {
                assert(z[j] == x[j]);
            } else if x[i].0 == block.0.0 {
                assert(is_listed(st.s, block));
            }
        }
    }
}

/// The list after tables changed that it does not go by.
proof fn lemma_same_logs(st: DecState, m: MetadataView, in_pause: bool)
    requires
        m.start == st.m.start,
        m.chunks == st.m.chunks,
        m.block_log == st.m.block_log,
    ensures
        lists(st, DecState { m, ..st }, in_pause),
{
    assert forall|block: Block| #[trigger] block.valid(m) implies block.valid(st.m)
        && block.index(m) == block.index(st.m) by {}
}

/// One decrement.
proof fn lemma_dec_lists(st: DecState, objects: ObjectModel, o: ObjectReference, in_pause: bool)
    requires
        st.m.wf(),
        objects.fits(st.m),
        st.m.in_heap(o.addr()),
    ensures
        lists(st, dec_processed(st, objects, o, in_pause), in_pause),
{
    let counted = DecState { m: decremented(st.m, o.addr()), ..st };
    lemma_same_logs(st, counted.m, in_pause);
    if count_of(st.m, o.addr()) == 1 {
        let slots = objects.field_slots(o.0.0);
        let after = dead_processed(counted, objects, o, in_pause);
        lemma_children_list(counted, objects, slots, in_pause);
        let deferred = children_deferred(counted, objects, slots, in_pause);
        lemma_lists_chain(st, counted, deferred, in_pause);
        if counted.m.space_of(o.addr()) == SpaceKind::Immix {
            let size = objects.size(o.0.0) as int;
            let m = object_straddle(deferred.m, o.addr(), size, 0);
            let cleared = DecState { m, ..deferred };
            assert(size > 0 ==> o.addr() + size <= st.m.end());
            assert(m.wf());
            lemma_same_logs(deferred, m, in_pause);
            lemma_lists_chain(st, deferred, cleared, in_pause);
            let block = block_of(o.addr());
            assert(block.valid(m));
            lemma_record_lists(cleared, block, in_pause);
            lemma_lists_chain(st, cleared, after, in_pause);
        }
    }
}

/// Some decrements.
proof fn lemma_decs_list(
    st: DecState,
    objects: ObjectModel,
    decs: Seq<ObjectReference>,
    in_pause: bool,
)
    requires
        st.m.wf(),
        objects.fits(st.m),
        objects.fields_valid(st.m),
        all_in_heap(st.m, decs),
        all_in_heap(st.m, st.new_decs),
    ensures
        lists(st, decs_processed(st, objects, decs, in_pause), in_pause),
    decreases decs.len(),
{
    if decs.len() > 0 {
        let less = decs.drop_last();
        assert forall|i: int| 0 <= i < less.len() implies st.m.in_heap(
            (#[trigger] less[i]).addr(),
        ) by {
            assert(less[i] == decs[i]);
        }
        lemma_decs_list(st, objects, less, in_pause);
        lemma_decs_processed(st, objects, less, in_pause);
        let before = decs_processed(st, objects, less, in_pause);
        assert(objects.fits(before.m));
        assert(decs.last() == decs[decs.len() - 1]);
        lemma_dec_lists(before, objects, decs.last(), in_pause);
        lemma_lists_chain(st, before, decs_processed(st, objects, decs, in_pause), in_pause);
    } else {
        lemma_same_logs(st, st.m, in_pause);
    }
}

/// Rounds of decrements.
proof fn lemma_rounds_list(st: DecState, objects: ObjectModel, in_pause: bool, n: nat)
    requires
        st.m.wf(),
        objects.fits(st.m),
        objects.fields_valid(st.m),
        all_in_heap(st.m, st.new_decs),
    ensures
        lists(st, dec_rounds(st, objects, in_pause, n), in_pause),
        dec_rounds(st, objects, in_pause, n).m.wf(),
        all_in_heap(
            dec_rounds(st, objects, in_pause, n).m,
            dec_rounds(st, objects, in_pause, n).new_decs,
        ),
    decreases n,
{
    if n == 0 {
        lemma_same_logs(st, st.m, in_pause);
    } else {
        let p = (n - 1) as nat;
        lemma_rounds_list(st, objects, in_pause, p);
        let before = dec_rounds(st, objects, in_pause, p);
        let emptied = DecState { new_decs: Seq::empty(), ..before };
        assert(objects.fits(emptied.m));
        assert(objects.fields_valid(emptied.m));
        lemma_decs_list(emptied, objects, before.new_decs, in_pause);
        lemma_decs_processed(emptied, objects, before.new_decs, in_pause);
        let after = dec_rounds(st, objects, in_pause, n);
        assert(lists(before, after, in_pause));
        lemma_lists_chain(st, before, after, in_pause);
    }
}

/// When the decrements of a packet are done, exactly the blocks with a log bit are listed, each once,
/// if that held before; so the sweep that follows comes to every block in which an object died.
/// Nothing else of the space changes, and what was handed on goes before others outside a pause.
pub proof fn law_blocks_of_dead_objects_are_listed(
    st: DecState,
    after: DecState,
    objects: ObjectModel,
    decs: Seq<ObjectReference>,
    in_pause: bool,
)
    requires
        st.m.wf(),
        objects.fits(st.m),
        objects.fields_valid(st.m),
        all_in_heap(st.m, decs),
        all_in_heap(st.m, st.new_decs),
        decs_drained(decs_processed(st, objects, decs, in_pause), after, objects, in_pause),
    ensures
        lists(st, after, in_pause),
{
    let first = decs_processed(st, objects, decs, in_pause);
    lemma_decs_list(st, objects, decs, in_pause);
    lemma_decs_processed(st, objects, decs, in_pause);
    assert(objects.fits(first.m));
    assert(objects.fields_valid(first.m));
    let n = choose|n: nat|
        #![trigger dec_rounds(first, objects, in_pause, n)]
        after == dec_rounds(first, objects, in_pause, n) && forall|k: nat|
            k < n ==> (#[trigger] dec_rounds(first, objects, in_pause, k)).new_decs.len() > 0;
    lemma_rounds_list(first, objects, in_pause, n);
    lemma_lists_chain(st, first, after, in_pause);
}

} // verus!
