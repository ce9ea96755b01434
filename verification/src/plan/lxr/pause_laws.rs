//! What holds of the pauses of the LXR plan: when one traces, and what it schedules.

use crate::args::Environment;
use crate::plan::lxr::global::{
    batch_objects, is_schedule, next_pause, pending_after_choice, pending_after_pause, takes_back,
    LxrPacket, LxrSchedule,
};
use crate::plan::lxr::laws::targets_in_spaces;
use crate::plan::lxr::rc::ProcessDecs;
use crate::plan::lxr::Pause;
use crate::policy::immix::immixspace::ImmixSpaceView;
use crate::policy::immix::space_gc::space_chunks;
use crate::scheduler::WorkBucketStage;
use crate::util::address::ObjectReference;
use crate::util::constants::BYTES_IN_CHUNK;
use crate::util::heap::chunk_map::{chunk_at, chunks_set, law_chunks_set_lists_each_once};
use crate::util::metadata::MetadataView;
use crate::util::vm::{ObjectModel, Slot};
use vstd::prelude::*;

verus! {

/// A reference-counting pause asks for a trace iff it left the heap critically full, or left it full
/// and freed too little; both go by percentages of the heap. The next pause then traces, and takes
/// the request.
pub proof fn law_full_heap_leads_to_a_trace(
    env: Environment,
    total: usize,
    used_before: usize,
    used_after: usize,
)
    requires
        !env.has("MMTK_RC_NO_CM"@),
        !env.has("MMTK_RC_NO_BACKUP_TRACE"@),
        total > 0,
    ensures
        ({
            let pending = pending_after_pause(
                env,
                false,
                Some(Pause::RefCount),
                total,
                used_before,
                used_after,
            );
            let lo = env.number_or("MMTK_RC_BACKUP_LO_PCT"@, 80);
            let hi = env.number_or("MMTK_RC_BACKUP_HI_PCT"@, 98);
            let least = env.number_or("MMTK_RC_BACKUP_MIN_RECLAIM_PCT"@, 5);
            let freed = if used_before >= used_after {
                used_before - used_after
            } else {
                0
            };
            let critical = hi > 0 && used_after * 100 >= total * hi;
            let stuck = used_after * 100 >= total * lo && freed * 100 < total * least;
            &&& pending == (critical || stuck)
            &&& pending ==> next_pause(env, pending) == Pause::Full
            &&& !pending ==> next_pause(env, pending) == Pause::RefCount
            &&& !pending_after_choice(env, pending)
        }),
{
}

/// Where traces are switched off, no pause traces and none asks for a trace. A pause with a trace, or
/// without a heap, asks for none either. A request stays until it is taken.
pub proof fn law_traces_can_be_switched_off(
    env: Environment,
    pending: bool,
    pause: Option<Pause>,
    total: usize,
    used_before: usize,
    used_after: usize,
)
    ensures
        ({
            let off = env.has("MMTK_RC_NO_CM"@) || env.has("MMTK_RC_NO_BACKUP_TRACE"@);
            let after = pending_after_pause(env, pending, pause, total, used_before, used_after);
            &&& off ==> next_pause(env, pending) == Pause::RefCount && after == pending
                && pending_after_choice(env, pending) == pending
            &&& pause != Some(Pause::RefCount) || total == 0 ==> after == pending
            &&& pending ==> after
        }),
{
}

/// A pause schedules packets that clear the marks of every chunk of the space if it traces, and no
/// such packet otherwise. The closure is open iff it traces. Every pause stops the mutators, is
/// prepared and released, and sweeps when the stage for decrements has drained.
pub proof fn law_schedule_of_a_pause(
    schedule: LxrSchedule,
    pause: Pause,
    m: MetadataView,
    s: ImmixSpaceView,
    prev_roots: Seq<Seq<usize>>,
)
    requires
        m.wf(),
        s.wf(m),
        is_schedule(schedule, pause, m, s, prev_roots),
    ensures
        pause != Pause::Full ==> schedule.mark_zeroing@.len() == 0,
        pause == Pause::Full ==> forall|k: int|
            0 <= k < m.chunks && #[trigger] s.chunk_map[k] ==> exists|i: int|
                0 <= i < schedule.mark_zeroing@.len() && (
                #[trigger] schedule.mark_zeroing@[i]).chunks.start == chunk_at(m, k)
                    && schedule.mark_zeroing@[i].chunks.end.addr() == chunk_at(m, k).addr()
                    + BYTES_IN_CHUNK,
        schedule.enabled@.contains((WorkBucketStage::Closure, pause == Pause::Full)),
        schedule.enabled@.contains((WorkBucketStage::SoftRefClosure, false)),
        schedule.enabled@.contains((WorkBucketStage::WeakRefClosure, false)),
        schedule.enabled@.contains((WorkBucketStage::FinalRefClosure, false)),
        schedule.enabled@.contains((WorkBucketStage::PhantomRefClosure, false)),
        schedule.enabled@.contains((WorkBucketStage::CalculateForwarding, false)),
        schedule.enabled@.contains((WorkBucketStage::SecondRoots, false)),
        schedule.enabled@.contains((WorkBucketStage::RefForwarding, false)),
        schedule.enabled@.contains((WorkBucketStage::FinalizableForwarding, false)),
        schedule.enabled@.contains((WorkBucketStage::Compact, false)),
        schedule.enabled@.len() == 10,
        schedule.packets@.contains((WorkBucketStage::Unconstrained, LxrPacket::StopMutators)),
        schedule.packets@.contains((WorkBucketStage::RCProcessIncs, LxrPacket::FastRCPrepare)),
        schedule.packets@.contains((WorkBucketStage::Release, LxrPacket::Release)),
        schedule.packets@.len() == 3,
        schedule.sentinel == (
            WorkBucketStage::STWRCDecsAndSweep,
            LxrPacket::RCBlockSweepEpilogue,
        ),
{
    let enabled = schedule.enabled@;
    assert(enabled[0] == (WorkBucketStage::SoftRefClosure, false));
    assert(enabled[1] == (WorkBucketStage::WeakRefClosure, false));
    assert(enabled[2] == (WorkBucketStage::FinalRefClosure, false));
    assert(enabled[3] == (WorkBucketStage::PhantomRefClosure, false));
    assert(enabled[4] == (WorkBucketStage::CalculateForwarding, false));
    assert(enabled[5] == (WorkBucketStage::SecondRoots, false));
    assert(enabled[6] == (WorkBucketStage::RefForwarding, false));
    assert(enabled[7] == (WorkBucketStage::FinalizableForwarding, false));
    assert(enabled[8] == (WorkBucketStage::Compact, false));
    assert(enabled[9] == (WorkBucketStage::Closure, pause == Pause::Full));
    let packets = schedule.packets@;
    assert(packets[0] == (WorkBucketStage::Unconstrained, LxrPacket::StopMutators));
    assert(packets[1] == (WorkBucketStage::RCProcessIncs, LxrPacket::FastRCPrepare));
    assert(packets[2] == (WorkBucketStage::Release, LxrPacket::Release));
    if pause == Pause::Full {
        law_chunks_set_lists_each_once(m, s.chunk_map, m.chunks);
        let list = space_chunks(m, s);
        assert forall|k: int| 0 <= k < m.chunks && #[trigger] s.chunk_map[k] implies exists|i: int|
            0 <= i < schedule.mark_zeroing@.len() && (
            #[trigger] schedule.mark_zeroing@[i]).chunks.start == chunk_at(m, k)
                && schedule.mark_zeroing@[i].chunks.end.addr() == chunk_at(m, k).addr()
                + BYTES_IN_CHUNK by {
            assert(chunks_set(m, s.chunk_map, m.chunks).contains(chunk_at(m, k)));
            let i = choose|i: int| 0 <= i < list.len() && list[i] == chunk_at(m, k);
            assert(schedule.mark_zeroing@[i].chunks.start == list[i]);
            assert(m.start + (k + 1) * BYTES_IN_CHUNK <= m.end()) by (nonlinear_arith)
                requires
                    k + 1 <= m.chunks,
                    m.end() == m.start + m.chunks * BYTES_IN_CHUNK,
            ;
        }
    }
}

/// The packets that take back roots hold every root of the previous collection, and nothing else.
pub proof fn law_every_root_is_taken_back(packets: Seq<ProcessDecs>, roots: Seq<Seq<usize>>)
    requires
        takes_back(packets, roots),
    ensures
        packets.len() >= 1,
        packets.map_values(|packet: ProcessDecs| packet.decs()).flatten() == roots.map_values(
            |batch: Seq<usize>| batch_objects(batch),
        ).flatten(),
{
    let f = |packet: ProcessDecs| packet.decs();
    let g = |batch: Seq<usize>| batch_objects(batch);
    if roots.len() == 0 {
        let one = packets.map_values(f);
        assert(one =~= seq![Seq::<ObjectReference>::empty()]);
        one.lemma_flatten_one_element();
        assert(roots.map_values(g) =~= Seq::empty());
        assert(Seq::<Seq<ObjectReference>>::empty().flatten() =~= Seq::empty());
    } else {
        assert(packets.map_values(f) =~= roots.map_values(g));
    }
}

/// What roots refer to in the spaces, in order.
pub proof fn law_root_targets(m: MetadataView, objects: ObjectModel, slots: Seq<Slot>)
    ensures
        targets_in_spaces(m, objects, slots) == slots.filter_map(
            |slot: Slot|
                match objects.target(slot) {
                    Some(o) => if m.in_spaces(o.addr()) {
                        Some(o.0.0)
                    } else {
                        None
                    },
                    None => None,
                },
        ),
    decreases slots.len(),
{
    reveal(Seq::filter_map);
    if slots.len() > 0 {
        law_root_targets(m, objects, slots.drop_last());
    }
}

} // verus!
