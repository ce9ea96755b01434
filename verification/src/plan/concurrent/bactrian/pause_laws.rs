//! What holds of each kind of pause, from its preparation to its end, and of the sweep that follows
//! a cycle.

use crate::args::Environment;
use crate::plan::concurrent::bactrian::gc_work::{
    chunks_swept, lemma_chunks_swept, sweep_ends, sweep_share, BactrianMarkQuantum, MarkRun,
    PacketDone, QuotaInputs, SweepState,
};
use crate::plan::concurrent::bactrian::global::{
    lemma_sweep_stays_ready, sweep_of, BactrianView,
};
use crate::plan::concurrent::bactrian::settings::compact_threshold;
use crate::plan::concurrent::Pause;
use crate::plan::constraints::CopySemantics;
use crate::policy::immix::block::lemma_block_positions;
use crate::policy::immix::chunk_work::SweepChunk;
use crate::policy::immix::gc_laws::{in_use, law_sweep_counts_the_lines, lines_with};
use crate::policy::immix::space_gc::space_chunks;
use crate::util::constants::{BLOCKS_IN_CHUNK, LINES_IN_BLOCK};
use crate::util::heap::chunk_map::{chunk_at, law_chunks_set_lists_each_once};
use crate::util::metadata::MetadataView;
use vstd::prelude::*;

verus! {

/// What the preparation of a pause does to the mature space and to marking: a collection of the
/// whole heap and the first pause of a cycle start a new line mark, and the latter starts the
/// cycle. Other pauses leave both alone. Nothing that is parked or asked for is touched.
pub proof fn law_preparation_starts_marking(
    v: BactrianView,
    env: Environment,
    spill_threshold: usize,
    m: MetadataView,
)
    requires
        v.wf(m),
        v.current_pause is Some,
    ensures
        ({
            let during = v.prepared(env, spill_threshold);
            let major = v.current_pause == Some(Pause::Full) || v.current_pause == Some(
                Pause::InitialMark,
            );
            &&& major ==> during.s.line_mark_state != v.s.line_mark_state && during.s.mark_state
                == 1 && during.s.major_live_bytes == 0
            &&& !major ==> during.s == v.s
            &&& during.s.line_unavail_state == v.s.line_unavail_state
            &&& during.concurrent_marking_active == (v.concurrent_marking_active
                || v.current_pause == Some(Pause::InitialMark))
            &&& during.allocate_as_live == (v.allocate_as_live || v.current_pause == Some(
                Pause::InitialMark,
            ))
            &&& during.current_pause == v.current_pause
            &&& during.previous_pause == v.previous_pause
            &&& during.parked_marking == v.parked_marking
            &&& during.parked_sweep == v.parked_sweep
            &&& during.sweep_counter == v.sweep_counter
            &&& during.sweep_pending == v.sweep_pending
            &&& during.next_gc_full_heap == v.next_gc_full_heap
            &&& during.compact_requested == v.compact_requested
            &&& during.progress_pause_requested == v.progress_pause_requested
            &&& during.gc_full_heap == v.gc_full_heap
            &&& during.common == v.common
        }),
{
}

/// Where young objects go in a pause. In the first and the last pause of a cycle all of them are
/// promoted. Only a nursery pause outside a cycle lets survivors of the nursery age, where that is
/// set; then those that have aged before are promoted, and the space that took them last is the one
/// that is emptied.
pub proof fn law_preparation_empties_young_spaces(
    v: BactrianView,
    env: Environment,
    spill_threshold: usize,
)
    requires
        v.current_pause is Some,
    ensures
        ({
            let during = v.prepared(env, spill_threshold);
            let promote = Some(CopySemantics::PromoteToMature);
            let cycle_end = v.current_pause == Some(Pause::InitialMark) || v.current_pause == Some(
                Pause::FinalMark,
            );
            &&& cycle_end ==> during.nursery.from_space && during.nursery.copy == promote
                && !during.nursery.released
            &&& !during.aging_this_gc ==> during.aged0.from_space && during.aged0.copy == promote
                && during.aged1.from_space && during.aged1.copy == promote
                && !during.aged0.released && !during.aged1.released
            &&& during.aging_this_gc ==> during.nursery.copy == Some(CopySemantics::Nursery)
            &&& during.aging_this_gc && v.aged_hi ==> !during.aged_hi && during.aged1.from_space
                && during.aged1.copy == promote && !during.aged0.from_space
                && during.aged0.copy is None
            &&& during.aging_this_gc && !v.aged_hi ==> during.aged_hi && during.aged0.from_space
                && during.aged0.copy == promote && !during.aged1.from_space
                && during.aged1.copy is None
            &&& v.current_pause == Some(Pause::Nursery) && !v.concurrent_marking_active ==> (
            during.aging_this_gc == (env.number_or("MMTK_NURSERY_AGE"@, 0) >= 1))
            &&& v.current_pause != Some(Pause::Nursery) || v.concurrent_marking_active
                ==> !during.aging_this_gc
            &&& v.current_pause == Some(Pause::Full) || v.current_pause == Some(Pause::Nursery)
                ==> during.nursery.from_space == v.nursery.from_space
        }),
{
}

/// The release of a collection of the whole heap, and of the last pause of a cycle, makes the lines
/// available that were not marked. With slices the latter leaves every chunk of the mature space
/// for later pauses, each once, and remembers how many; otherwise no chunk is left. The first pause
/// of a cycle, and a nursery pause, leave the mature space alone.
pub proof fn law_release_leaves_the_sweep(v: BactrianView, m: MetadataView)
    requires
        m.wf(),
        v.wf(m),
        v.current_pause is Some,
        space_chunks(m, v.s).len() <= usize::MAX,
    ensures
        ({
            let after = v.after_release(m);
            let major = v.current_pause == Some(Pause::Full) || v.current_pause == Some(
                Pause::FinalMark,
            );
            let deferred = v.current_pause == Some(Pause::FinalMark) && v.sliced_marking;
            &&& major ==> after.s.line_unavail_state == v.s.line_mark_state
                && after.s.reusable_blocks.shared.len() == 0
                && after.s.reusable_blocks.pending.len() == 0 && after.s.swept_live_blocks == 0
            &&& !major ==> after.s == v.s
            &&& after.s.line_mark_state == v.s.line_mark_state
            &&& after.s.chunk_map == v.s.chunk_map
            &&& deferred ==> after.sweep_pending && after.sweep_counter == after.parked_sweep.len()
            &&& deferred ==> forall|k: int|
                0 <= k < m.chunks ==> #[trigger] v.s.chunk_map[k] == after.parked_sweep.contains(
                    chunk_at(m, k).0.0,
                )
            &&& deferred ==> after.parked_sweep.no_duplicates()
            &&& !deferred ==> after.parked_sweep == v.parked_sweep && after.sweep_counter
                == v.sweep_counter && after.sweep_pending == v.sweep_pending
            &&& v.current_pause == Some(Pause::FinalMark) ==> after.nursery.released
            &&& !(v.current_pause == Some(Pause::Nursery) && v.aging_this_gc)
                ==> after.aged0.released && after.aged1.released
            &&& v.current_pause == Some(Pause::Nursery) && v.aging_this_gc ==> if v.aged_hi {
                after.aged0.released && after.aged1 == v.aged1
            } else {
                after.aged1.released && after.aged0 == v.aged0
            }
            &&& after.concurrent_marking_active == v.concurrent_marking_active
            &&& after.allocate_as_live == v.allocate_as_live
            &&& after.current_pause == v.current_pause
            &&& after.parked_marking == v.parked_marking
            &&& after.next_gc_full_heap == v.next_gc_full_heap
            &&& after.compact_requested == v.compact_requested
        }),
{
    law_chunks_set_lists_each_once(m, v.s.chunk_map, m.chunks);
    let chunks = space_chunks(m, v.s);
    let after = v.after_release(m);
    if v.current_pause == Some(Pause::FinalMark) && v.sliced_marking {
        let parked = after.parked_sweep;
        assert(parked.len() == chunks.len());
        assert forall|i: int| 0 <= i < parked.len() implies #[trigger] parked[i]
            == chunks[i].0.0 by {}
        assert forall|k: int| 0 <= k < m.chunks implies #[trigger] v.s.chunk_map[k]
            == parked.contains(chunk_at(m, k).0.0) by {
            let chunk = chunk_at(m, k);
            assert(v.s.chunk_map[k] == chunks.contains(chunk));
            if chunks.contains(chunk) {
                let i = choose|i: int| 0 <= i < chunks.len() && chunks[i] == chunk;
                assert(parked[i] == chunk.0.0);
            }
            if parked.contains(chunk.0.0) {
                let i = choose|i: int| 0 <= i < parked.len() && parked[i] == chunk.0.0;
                assert(chunks[i].0.0 == chunk.0.0);
                assert(chunks[i] == chunk);
            }
        }
        assert forall|i: int, j: int| 0 <= i < j < parked.len() implies parked[i] != parked[j] by {
            assert(chunks[i] != chunks[j]);
        }
    }
}

/// The end of a pause: it becomes the previous one, a cycle is over iff it was its last pause, and
/// new objects no longer count as live if then no sweep is left. What the pause left parked stays.
pub proof fn law_pause_ends(v: BactrianView, next_gc_full_heap: bool)
    ensures
        ({
            let after = v.ended(next_gc_full_heap);
            let last = v.current_pause == Some(Pause::FinalMark);
            &&& after.current_pause is None
            &&& after.previous_pause == v.current_pause
            &&& after.next_gc_full_heap == next_gc_full_heap
            &&& last ==> !after.concurrent_marking_active
            &&& !last ==> after.concurrent_marking_active == v.concurrent_marking_active
            &&& last && !(v.sliced_marking && v.sweep_pending) ==> !after.allocate_as_live
            &&& !last || (v.sliced_marking && v.sweep_pending) ==> after.allocate_as_live
                == v.allocate_as_live
            &&& after.last_gc_was_defrag == v.s.defrag.in_defrag
            &&& after.parked_marking == v.parked_marking
            &&& after.parked_sweep == v.parked_sweep
            &&& after.sweep_counter == v.sweep_counter
            &&& after.sweep_pending == v.sweep_pending
            &&& after.compact_requested == v.compact_requested
            &&& after.nursery == v.nursery
            &&& after.aged0 == v.aged0
            &&& after.aged1 == v.aged1
            &&& after.s.chunk_map == v.s.chunk_map
            &&& after.s.pr == v.s.pr
            &&& after.s.reusable_blocks == v.s.reusable_blocks
        }),
{
}

/// The end of a sweep asks for a major collection iff the sweep was left by a cycle and the mature
/// space is fragmented: a threshold is set, at least sixty-four blocks are live, and the share of
/// those that are only partly taken has reached the threshold. Noticing the end again changes
/// nothing.
pub proof fn law_fragmentation_asks_for_a_collection(v: BactrianView, env: Environment)
    ensures
        ({
            let after = v.sweep_completed(env);
            let pct = compact_threshold(env);
            let reusable = v.s.reusable_blocks.shared.len() + v.s.reusable_blocks.pending.len();
            &&& !after.sweep_pending
            &&& v.sweep_pending ==> !after.allocate_as_live
            &&& !v.sweep_pending ==> after == v
            &&& v.next_gc_full_heap ==> after.next_gc_full_heap
            &&& reusable <= usize::MAX && v.sweep_pending && !v.next_gc_full_heap ==> (
            after.next_gc_full_heap == (pct > 0 && v.s.swept_live_blocks >= 64 && reusable * 100
                >= v.s.swept_live_blocks * pct))
            &&& after.sweep_completed(env) == after
            &&& (BactrianView {
                sweep_pending: v.sweep_pending,
                allocate_as_live: v.allocate_as_live,
                next_gc_full_heap: v.next_gc_full_heap,
                ..after
            }) == v
        }),
{
    reveal(BactrianView::fragmented);
    let after = v.sweep_completed(env);
    assert(after.sweep_completed(env) =~= after);
    if !v.sweep_pending {
        assert(after =~= v);
    }
}

/// A quotient that is rounded up is the least number of which `b` make up for `a`.
proof fn lemma_rounded_up(a: int, b: int)
    requires
        a >= 0,
        b >= 1,
    ensures
        (a + b - 1) / b * b >= a,
        a > 0 ==> ((a + b - 1) / b - 1) * b < a,
        a == 0 ==> (a + b - 1) / b == 0,
{
    assert((a + b - 1) / b * b >= a) by (nonlinear_arith)
        requires
            b >= 1,
            a >= 0,
    ;
    if a > 0 {
        assert(((a + b - 1) / b - 1) * b < a) by (nonlinear_arith)
            requires
                b >= 1,
                a > 0,
        ;
    } else {
        assert((b - 1) / b == 0) by (nonlinear_arith)
            requires
                b >= 1,
        ;
    }
}

/// The share of the parked chunks that a quantum must sweep is the least with which the sweep is
/// complete before promotion has used up the room. Where the next nursery collection already uses
/// it up, the share is all.
pub proof fn law_sweep_shares_cover_the_chunks(remaining: usize, promotion: u64, runway: u64)
    requires
        promotion > 0,
    ensures
        ({
            let share = sweep_share(remaining, promotion, runway);
            let left = runway as int / promotion as int;
            &&& left <= 1 ==> share == remaining
            &&& left > 1 ==> share * left >= remaining
            &&& left > 1 && remaining > 0 ==> (share - 1) * left < remaining
            &&& remaining == 0 ==> share == 0
        }),
{
    let left = runway as int / promotion as int;
    if left > 1 {
        lemma_rounded_up(remaining as int, left);
    } else {
        assert((remaining as int + 1 - 1) / 1 == remaining);
    }
}

/// The share of the backlog that a quantum must mark is the least with which as many quanta as
/// there are slices mark it all.
pub proof fn law_mark_shares_are_least(inputs: QuotaInputs)
    requires
        inputs.promotion != 0 || inputs.mark_rate != 0,
        inputs.mark_rate != 0 ==> inputs.min_slices >= 1,
    ensures
        ({
            let slices = inputs.slices_available();
            let left = inputs.runway as int / inputs.promotion as int;
            &&& slices >= 1
            &&& inputs.backlog > 0 ==> (inputs.share() - 1) * slices < inputs.backlog
            &&& inputs.share() * slices >= inputs.backlog
            &&& inputs.mark_rate != 0 ==> slices >= inputs.min_slices
            &&& inputs.promotion > 0 && left >= 1 && left <= 0x7fff_ffff_ffff_ffff
                ==> slices >= left
            &&& inputs.promotion > 0 && inputs.mark_rate == 0 && 1 <= left
                <= 0x7fff_ffff_ffff_ffff ==> slices == left
            &&& inputs.promotion > 0 && inputs.mark_rate != 0 && left <= inputs.min_slices
                ==> slices == inputs.min_slices
            &&& inputs.promotion > 0 && inputs.mark_rate == 0 && left <= 1 ==> slices == 1
        }),
{
    lemma_rounded_up(inputs.backlog as int, inputs.slices_available());
}

/// When a sweep quantum ends: never before its budget is spent; then as soon as its share is swept, or
/// its cap is reached.
pub proof fn law_sweep_ends_in_time(
    packets: usize,
    quota: usize,
    budget: u64,
    cap: u64,
    since_budget: u64,
    since_start: u64,
)
    ensures
        ({
            let ends = sweep_ends(packets, quota, budget, cap, since_budget, since_start);
            &&& since_budget < budget ==> !ends
            &&& since_budget >= budget && packets >= quota ==> ends
            &&& since_budget >= budget && since_start >= cap ==> ends
            &&& packets < quota && since_start < cap ==> !ends
        }),
{
}

/// The time at which a mark quantum ends, after packets of which the one at position `i` was the
/// first to meet the quota.
proof fn lemma_deadline_is_set(
    quantum: BactrianMarkQuantum,
    run: MarkRun,
    done: Seq<PacketDone>,
    i: int,
)
    requires
        run.deadline is None,
        quantum.budget is Some,
        0 <= i < done.len(),
        done[i].1 + quantum.budget->0 <= u64::MAX,
        quantum.quota_met(run, done[i]),
        forall|j: int| 0 <= j < i ==> !quantum.quota_met(run, #[trigger] done[j]),
    ensures
        quantum.run_for(run, done).deadline == Some((done[i].1 + quantum.budget->0) as u64),
        quantum.run_for(run, done).quota == run.quota,
        quantum.run_for(run, done).traced_at_start == run.traced_at_start,
    decreases done.len(),
{
    let earlier = done.drop_last();
    if i < earlier.len() {
        assert(earlier[i] == done[i]);
        assert forall|j: int| 0 <= j < i implies !quantum.quota_met(run, #[trigger] earlier[j]) by {
            assert(earlier[j] == done[j]);
        }
        lemma_deadline_is_set(quantum, run, earlier, i);
    } else {
        assert forall|j: int| 0 <= j < earlier.len() implies !quantum.quota_met(
            run,
            #[trigger] earlier[j],
        ) by {
            assert(earlier[j] == done[j]);
        }
        lemma_no_deadline(quantum, run, earlier);
        assert(done.last() == done[i]);
    }
}

/// Before the quota is met, no time is set.
proof fn lemma_no_deadline(quantum: BactrianMarkQuantum, run: MarkRun, done: Seq<PacketDone>)
    requires
        run.deadline is None,
        forall|j: int| 0 <= j < done.len() ==> !quantum.quota_met(run, #[trigger] done[j]),
    ensures
        quantum.run_for(run, done).deadline is None,
        quantum.run_for(run, done).quota == run.quota,
        quantum.run_for(run, done).traced_at_start == run.traced_at_start,
    decreases done.len(),
{
    if done.len() > 0 {
        let earlier = done.drop_last();
        assert forall|j: int| 0 <= j < earlier.len() implies !quantum.quota_met(
            run,
            #[trigger] earlier[j],
        ) by {
            assert(earlier[j] == done[j]);
        }
        lemma_no_deadline(quantum, run, earlier);
        assert(done.last() == done[done.len() - 1]);
    }
}

/// A mark quantum with a budget ends after a packet iff the budget was spent since an earlier packet
/// was the first to meet the quota.
pub proof fn law_budget_ends_the_quantum(
    quantum: BactrianMarkQuantum,
    run: MarkRun,
    done: Seq<PacketDone>,
    budget: u64,
    i: int,
)
    requires
        run.deadline is None,
        quantum.budget == Some(budget),
        0 <= i < done.len() - 1,
        done[i].1 + budget <= u64::MAX,
        quantum.quota_met(run, done[i]),
        forall|j: int| 0 <= j < i ==> !quantum.quota_met(run, #[trigger] done[j]),
    ensures
        quantum.ends(quantum.run_for(run, done.drop_last()), done.last()) == (done.last().1
            >= done[i].1 + budget),
{
    let earlier = done.drop_last();
    assert(earlier[i] == done[i]);
    assert forall|j: int| 0 <= j < i implies !quantum.quota_met(run, #[trigger] earlier[j]) by {
        assert(earlier[j] == done[j]);
    }
    lemma_deadline_is_set(quantum, run, earlier, i);
}

/// The quota of a mark quantum is met when as many objects were marked since it started; without a
/// quota it is met at once. The quota of a quantum with a budget is what came in since the last one,
/// and a share of the backlog; a quantum without a budget has none.
pub proof fn law_quota_counts_from_the_start(
    quantum: BactrianMarkQuantum,
    v: BactrianView,
    inputs: QuotaInputs,
    traced: usize,
    done: PacketDone,
)
    requires
        inputs.fits(v.enqueued_at_last_quantum),
    ensures
        ({
            let run = quantum.started(v, inputs, traced);
            let inflow = inputs.enqueued + inputs.satb_enqueued - v.enqueued_at_last_quantum;
            &&& run.packets == 0 && run.deadline is None && run.traced_at_start == traced
            &&& quantum.budget is None ==> run.quota is None
            &&& quantum.budget is None && done.0 >= traced ==> quantum.quota_met(run, done)
            &&& quantum.budget is Some && inflow >= 0 ==> quantum.quota_met(run, done) == (done.0
                - traced >= inflow + inputs.share())
            &&& quantum.budget is Some && inflow < 0 ==> quantum.quota_met(run, done) == (done.0
                - traced >= inputs.share())
        }),
{
    let a = inputs.backlog as int;
    let b = inputs.slices_available();
    assert(b >= 1);
    assert((a + b - 1) / b >= 0) by (nonlinear_arith)
        requires
            a >= 0,
            b >= 1,
    ;
}

/// What the sweep of one parked chunk does to a block of another.
proof fn lemma_other_block(
    work: SweepChunk,
    other: SweepChunk,
    m: MetadataView,
    v: BactrianView,
    i: int,
)
    requires
        m.wf(),
        work.chunk.valid(m),
        other.chunk.valid(m),
        work.chunk != other.chunk,
        0 <= i < BLOCKS_IN_CHUNK,
    ensures
        ({
            let after = work.swept(v.s, m, true);
            let block = other.chunk.block_at(i);
            &&& after.start == m.start
            &&& after.chunks == m.chunks
            &&& block.index(after) == block.index(m)
            &&& after.block_mark[block.index(m)] == m.block_mark[block.index(m)]
            &&& after.line_mark.len() == m.line_mark.len()
            &&& forall|l: int|
                block.index(m) * LINES_IN_BLOCK <= l < (block.index(m) + 1) * LINES_IN_BLOCK
                    ==> #[trigger] after.line_mark[l] == m.line_mark[l]
        }),
{
    reveal(SweepChunk::swept);
    let n = BLOCKS_IN_CHUNK as int;
    work.lemma_blocks_swept(v.s, m, n, true);
    work.lemma_other_lines(v.s, m, n, true);
    work.chunk.lemma_positions(m);
    other.chunk.lemma_positions(m);
    let a = work.chunk.index(m);
    let b = other.chunk.index(m);
    assert(a != b) by {
        if a == b {
            assert(work.chunk.addr() == other.chunk.addr());
        }
    }
    let block = other.chunk.block_at(i);
    lemma_block_positions(m, block);
    assert(a * BLOCKS_IN_CHUNK + n <= b * BLOCKS_IN_CHUNK || b * BLOCKS_IN_CHUNK + n <= a
        * BLOCKS_IN_CHUNK);
}

/// The line counts of a block with the same marks.
proof fn lemma_same_lines(m: MetadataView, after: MetadataView, v: BactrianView, k: int, i: int)
    requires
        m.wf(),
        after.wf(),
        after.start == m.start,
        after.chunks == m.chunks,
        0 <= k < v.parked_sweep.len(),
        0 <= i < BLOCKS_IN_CHUNK,
        sweep_of(v.parked_sweep[k]).chunk.valid(m),
        ({
            let block = sweep_of(v.parked_sweep[k]).chunk.block_at(i);
            forall|l: int|
                block.index(m) * LINES_IN_BLOCK <= l < (block.index(m) + 1) * LINES_IN_BLOCK
                    ==> #[trigger] after.line_mark[l] == m.line_mark[l]
        }),
    ensures
        ({
            let block = sweep_of(v.parked_sweep[k]).chunk.block_at(i);
            forall|state: u8| #[trigger] lines_with(after, block, state) == lines_with(
                m,
                block,
                state,
            )
        }),
{
    let chunk = sweep_of(v.parked_sweep[k]).chunk;
    let block = chunk.block_at(i);
    chunk.lemma_positions(m);
    lemma_block_positions(m, block);
    let lo = block.index(m) * LINES_IN_BLOCK;
    let hi = (block.index(m) + 1) * LINES_IN_BLOCK;
    assert(after.line_mark.subrange(lo, hi) =~= m.line_mark.subrange(lo, hi));
}

/// The tables stay tables while parked chunks are swept.
proof fn lemma_sweep_tables(st: SweepState, n: nat)
    requires
        st.m.wf(),
        st.v.sweep_ready(st.m),
        n <= st.v.parked_sweep.len(),
        forall|k: nat| k <= n ==> (#[trigger] chunks_swept(st, k)).m.wf(),
    ensures
        chunks_swept(st, n).v.sweep_ready(chunks_swept(st, n).m),
        chunks_swept(st, n).m.start == st.m.start,
        chunks_swept(st, n).m.chunks == st.m.chunks,
        chunks_swept(st, n).v.s.line_mark_state == st.v.s.line_mark_state,
        chunks_swept(st, n).v.parked_sweep == st.v.parked_sweep.subrange(
            n as int,
            st.v.parked_sweep.len() as int,
        ),
    decreases n,
{
    reveal(BactrianView::sweep_ready);
    lemma_chunks_swept(st, n);
    if n > 0 {
        let p = (n - 1) as nat;
        lemma_sweep_tables(st, p);
        let before = chunks_swept(st, p);
        assert(before.m.wf());
        assert(chunks_swept(st, n).m.wf());
        assert(before.v.parked_sweep.len() > 0);
        assert(before.v.parked_sweep[0] == st.v.parked_sweep[p as int]);
        let work = sweep_of(before.v.parked_sweep[0]);
        reveal(SweepChunk::ready);
        assert(work.ready(before.m, before.v.s));
        lemma_sweep_stays_ready(before.v, before.m);
        reveal(SweepChunk::swept);
        reveal(SweepChunk::space_swept);
        work.lemma_blocks_swept(before.v.s, before.m, BLOCKS_IN_CHUNK as int, true);
    }
}

/// The tables on the way of a sweep are tables.
pub open spec fn sweeps_in_tables(st: SweepState, n: nat) -> bool {
    forall|k: nat| k <= n ==> (#[trigger] chunks_swept(st, k)).m.wf()
}

/// Every one of the oldest `n` parked chunks is swept, and none of the others: a block of a swept
/// chunk is free if no line of it was marked, and otherwise says how many are taken; a block of
/// another chunk is as it was.
pub proof fn law_every_parked_chunk_is_swept(st: SweepState, n: nat, k: int, i: int)
    requires
        st.m.wf(),
        st.v.sweep_ready(st.m),
        n <= st.v.parked_sweep.len(),
        sweeps_in_tables(st, n),
        0 <= k < st.v.parked_sweep.len(),
        0 <= i < BLOCKS_IN_CHUNK,
    ensures
        ({
            let block = sweep_of(st.v.parked_sweep[k]).chunk.block_at(i);
            let byte = chunks_swept(st, n).m.block_mark[block.index(st.m)];
            let marked = lines_with(st.m, block, st.v.s.line_mark_state);
            &&& k < n && (!in_use(st.m, block) || marked == 0) ==> byte == 0
            &&& k < n && in_use(st.m, block) && 0 < marked < LINES_IN_BLOCK ==> byte == marked
            &&& k < n && in_use(st.m, block) && marked == LINES_IN_BLOCK ==> byte == 255
            &&& k >= n ==> byte == st.m.block_mark[block.index(st.m)]
            &&& k >= n ==> forall|l: int|
                block.index(st.m) * LINES_IN_BLOCK <= l < (block.index(st.m) + 1) * LINES_IN_BLOCK
                    ==> #[trigger] chunks_swept(st, n).m.line_mark[l] == st.m.line_mark[l]
        }),
    decreases n,
{
    reveal(BactrianView::sweep_ready);
    reveal(SweepChunk::ready);
    let other = sweep_of(st.v.parked_sweep[k]);
    let block = other.chunk.block_at(i);
    assert(other.ready(st.m, st.v.s));
    other.chunk.lemma_positions(st.m);
    lemma_block_positions(st.m, block);
    if n > 0 {
        let p = (n - 1) as nat;
        assert(sweeps_in_tables(st, p));
        law_every_parked_chunk_is_swept(st, p, k, i);
        lemma_sweep_tables(st, p);
        let before = chunks_swept(st, p);
        assert(before.m.wf());
        let work = sweep_of(before.v.parked_sweep[0]);
        assert(before.v.parked_sweep[0] == st.v.parked_sweep[p as int]);
        assert(work.ready(before.m, before.v.s));
        assert(other.chunk.valid(before.m));
        if k == p {
            assert(work == other);
            law_sweep_counts_the_lines(work, before.m, before.v.s, true, i);
            lemma_same_lines(st.m, before.m, st.v, k, i);
        } else {
            assert(st.v.parked_sweep[k] != st.v.parked_sweep[p as int]);
            assert(work.chunk != other.chunk);
            lemma_other_block(work, other, before.m, before.v, i);
        }
    }
}

} // verus!
