//! The LXR plan: when it pauses, what it schedules, and when it falls back to a trace.

use crate::args::Environment;
use crate::plan::constraints::{
    BarrierSelector, CopySelector, CopySemantics, PlanConstraints, MAX_IMMIX_OBJECT_SIZE,
};
use crate::plan::lxr::laws::targets_in_spaces;
use crate::plan::lxr::rc::{roots_processed, IncState, ProcessDecs};
use crate::plan::lxr::Pause;
use crate::policy::immix::immixspace::{
    new_space, with_mark, ImmixSpace, ImmixSpaceArgs, ImmixSpaceView, PlanCreateSpaceArgs,
};
use crate::policy::immix::rc_work::ChunkMarkZeroing;
use crate::policy::immix::space_gc::{one_chunk, space_chunks};
use crate::scheduler::WorkBucketStage;
use crate::util::address::{Address, ObjectReference};
use crate::util::atomic_code::{load_code, new_code, store_code, stored_code};
use crate::util::linear_scan::Chunk;
use crate::util::metadata::{HeapMetadata, MetadataView};
use crate::util::queue::{
    batches, count_batches, new_batch_queue, pop_batch, queued_batches,
};
use crate::util::vm::{MetadataLocation, ObjectModel, Slot, VmConfig};
use crate::LazySweepingJobsCounter;
use atomic::Atomic;
use crossbeam::queue::SegQueue;
use vstd::prelude::*;

verus! {

/// The code of a pause, or of none.
pub open spec fn pause_code(pause: Option<Pause>) -> u8 {
    match pause {
        None => 0,
        Some(Pause::Full) => 1,
        Some(Pause::FullDefrag) => 2,
        Some(Pause::RefCount) => 3,
        Some(Pause::InitialMark) => 4,
        Some(Pause::FinalMark) => 5,
    }
}

/// The pause that a code stands for.
pub open spec fn code_pause(code: u8) -> Option<Pause> {
    if code == 1 {
        Some(Pause::Full)
    } else if code == 2 {
        Some(Pause::FullDefrag)
    } else if code == 3 {
        Some(Pause::RefCount)
    } else if code == 4 {
        Some(Pause::InitialMark)
    } else if code == 5 {
        Some(Pause::FinalMark)
    } else {
        None
    }
}

/// A pause survives its encoding.
pub proof fn law_pause_code_round_trips(pause: Option<Pause>)
    ensures
        code_pause(pause_code(pause)) == pause,
{
}

/// The code of a pause, or of none.
fn encode_pause(pause: Option<Pause>) -> (code: u8)
    ensures
        code == pause_code(pause),
{
    match pause {
        None => 0,
        Some(Pause::Full) => 1,
        Some(Pause::FullDefrag) => 2,
        Some(Pause::RefCount) => 3,
        Some(Pause::InitialMark) => 4,
        Some(Pause::FinalMark) => 5,
    }
}

/// The pause that a code stands for.
fn decode_pause(code: u8) -> (pause: Option<Pause>)
    ensures
        pause == code_pause(code),
{
    if code == 1 {
        Some(Pause::Full)
    } else if code == 2 {
        Some(Pause::FullDefrag)
    } else if code == 3 {
        Some(Pause::RefCount)
    } else if code == 4 {
        Some(Pause::InitialMark)
    } else if code == 5 {
        Some(Pause::FinalMark)
    } else {
        None
    }
}

/// The fallback to a trace is switched off.
pub open spec fn trace_disabled(env: Environment) -> bool {
    env.has("MMTK_RC_NO_CM"@) || env.has("MMTK_RC_NO_BACKUP_TRACE"@)
}

/// Whether the fallback to a trace is switched off.
pub fn backup_trace_disabled(env: &Environment) -> (disabled: bool)
    ensures
        disabled == trace_disabled(*env),
{
    env.is_set("MMTK_RC_NO_CM") || env.is_set("MMTK_RC_NO_BACKUP_TRACE")
}

/// The percentage of the heap from which on it counts as still full after a pause.
pub fn backup_lo_pct(env: &Environment) -> (pct: usize)
    ensures
        pct == env.number_or("MMTK_RC_BACKUP_LO_PCT"@, 80),
{
    env.usize_or("MMTK_RC_BACKUP_LO_PCT", 80)
}

/// The percentage of the heap that a pause must free in order to count as effective.
pub fn backup_min_reclaim_pct(env: &Environment) -> (pct: usize)
    ensures
        pct == env.number_or("MMTK_RC_BACKUP_MIN_RECLAIM_PCT"@, 5),
{
    env.usize_or("MMTK_RC_BACKUP_MIN_RECLAIM_PCT", 5)
}

/// The percentage of the heap from which on it counts as critically full after a pause. Zero says
/// never.
pub fn backup_hi_pct(env: &Environment) -> (pct: usize)
    ensures
        pct == env.number_or("MMTK_RC_BACKUP_HI_PCT"@, 98),
{
    env.usize_or("MMTK_RC_BACKUP_HI_PCT", 98)
}

/// `part` is at least `pct` percent of `total`.
pub open spec fn at_least_pct(part: usize, total: usize, pct: usize) -> bool {
    part * 100 >= total * pct
}

/// Whether `part` is at least `pct` percent of `total`.
fn is_at_least_pct(part: usize, total: usize, pct: usize) -> (result: bool)
    ensures
        result == at_least_pct(part, total, pct),
{
    proof {
        assert(total as u128 * pct as u128 <= 0xffff_ffff_ffff_ffff * 0xffff_ffff_ffff_ffff)
            by (nonlinear_arith)
            requires
                total as u128 <= 0xffff_ffff_ffff_ffff,
                pct as u128 <= 0xffff_ffff_ffff_ffff,
        ;
    }
    part as u128 * 100 >= total as u128 * pct as u128
}

/// The next pause must trace: the reference-counting pause that just ended left the heap full and
/// freed little, or left it critically full.
pub open spec fn under_reclaimed(
    env: Environment,
    total: usize,
    used_before: usize,
    used_after: usize,
) -> bool {
    let freed = if used_before > used_after {
        (used_before - used_after) as usize
    } else {
        0
    };
    let hi = env.number_or("MMTK_RC_BACKUP_HI_PCT"@, 98);
    let still_full = at_least_pct(
        used_after,
        total,
        env.number_or("MMTK_RC_BACKUP_LO_PCT"@, 80),
    );
    let ineffective = !at_least_pct(
        freed,
        total,
        env.number_or("MMTK_RC_BACKUP_MIN_RECLAIM_PCT"@, 5),
    );
    (still_full && ineffective) || (hi > 0 && at_least_pct(used_after, total, hi))
}

/// The kind of the next pause.
pub open spec fn next_pause(env: Environment, backup_pending: bool) -> Pause {
    if !trace_disabled(env) && backup_pending {
        Pause::Full
    } else {
        Pause::RefCount
    }
}

/// A trace is pending after the next pause was chosen: choosing takes the request.
pub open spec fn pending_after_choice(env: Environment, backup_pending: bool) -> bool {
    trace_disabled(env) && backup_pending
}

/// A trace is pending after a pause ended. Only a reference-counting pause asks for one.
pub open spec fn pending_after_pause(
    env: Environment,
    backup_pending: bool,
    pause: Option<Pause>,
    total: usize,
    used_before: usize,
    used_after: usize,
) -> bool {
    backup_pending || (!trace_disabled(env) && pause == Some(Pause::RefCount) && total != 0
        && under_reclaimed(env, total, used_before, used_after))
}

/// After a pause with a trace comes one without, whatever the heap looks like.
pub proof fn law_no_two_traces_in_a_row(
    env: Environment,
    total: usize,
    used_before: usize,
    used_after: usize,
)
    requires
        !trace_disabled(env),
    ensures
        next_pause(
            env,
            pending_after_pause(
                env,
                pending_after_choice(env, true),
                Some(next_pause(env, true)),
                total,
                used_before,
                used_after,
            ),
        ) == Pause::RefCount,
{
}

/// A pause that empties the heap below both marks asks for no trace.
pub proof fn law_effective_pause_asks_for_no_trace(
    env: Environment,
    total: usize,
    used_before: usize,
    used_after: usize,
)
    requires
        !at_least_pct(used_after, total, env.number_or("MMTK_RC_BACKUP_LO_PCT"@, 80)),
        !at_least_pct(used_after, total, env.number_or("MMTK_RC_BACKUP_HI_PCT"@, 98)),
    ensures
        !pending_after_pause(
            env,
            false,
            Some(Pause::RefCount),
            total,
            used_before,
            used_after,
        ),
{
}

/// The global tables that the plan registers.
#[derive(Debug, Clone, Copy, PartialEq, Eq, Structural)]
pub enum GlobalSpec {
    /// The log bits of objects.
    LogBit,
    /// The log bits of fields.
    FieldUnlogBit,
    /// The reference counts.
    RcTable,
}

/// A packet that the plan schedules.
#[derive(Debug, Clone, Copy, PartialEq, Eq, Structural)]
pub enum LxrPacket {
    /// Stops the mutators and scans the roots, each batch of which becomes increments.
    StopMutators,
    /// Prepares the plan.
    FastRCPrepare,
    /// Releases the plan.
    Release,
    /// Sweeps the nursery and the mature blocks after all decrements.
    RCBlockSweepEpilogue,
}

/// What the plan hands to the scheduler at the start of a pause.
pub struct LxrSchedule {
    /// Buckets to switch off or on.
    pub enabled: Vec<(WorkBucketStage, bool)>,
    /// For the bucket that is always open: packets that clear mark bits.
    pub mark_zeroing: Vec<ChunkMarkZeroing>,
    /// For the stage of decrements: the roots of the previous collection.
    pub prev_root_decs: Vec<ProcessDecs>,
    /// Further packets.
    pub packets: Vec<(WorkBucketStage, LxrPacket)>,
    /// The packet that runs when a bucket has drained.
    pub sentinel: (WorkBucketStage, LxrPacket),
}

/// Which buckets a pause switches off or on: what only serves tracing, reference processing or
/// moving is off, but for the closure in a pause with a trace.
pub open spec fn buckets_enabled(pause: Pause) -> Seq<(WorkBucketStage, bool)> {
    seq![
        (WorkBucketStage::SoftRefClosure, false),
        (WorkBucketStage::WeakRefClosure, false),
        (WorkBucketStage::FinalRefClosure, false),
        (WorkBucketStage::PhantomRefClosure, false),
        (WorkBucketStage::CalculateForwarding, false),
        (WorkBucketStage::SecondRoots, false),
        (WorkBucketStage::RefForwarding, false),
        (WorkBucketStage::FinalizableForwarding, false),
        (WorkBucketStage::Compact, false),
        (WorkBucketStage::Closure, pause == Pause::Full),
    ]
}

/// The packets that every pause schedules.
pub open spec fn pause_packets() -> Seq<(WorkBucketStage, LxrPacket)> {
    seq![
        (WorkBucketStage::Unconstrained, LxrPacket::StopMutators),
        (WorkBucketStage::RCProcessIncs, LxrPacket::FastRCPrepare),
        (WorkBucketStage::Release, LxrPacket::Release),
    ]
}

/// The objects of a batch of addresses.
pub open spec fn batch_objects(batch: Seq<usize>) -> Seq<ObjectReference> {
    batch.map_values(|address: usize| ObjectReference(Address(address)))
}

/// The packets take back the increments of the given batches of roots. Without a batch there is
/// one packet without objects.
pub open spec fn takes_back(packets: Seq<ProcessDecs>, roots: Seq<Seq<usize>>) -> bool {
    if roots.len() == 0 {
        packets.len() == 1 && packets[0].decs() == Seq::<ObjectReference>::empty()
            && packets[0].counter().decs() is Some
    } else {
        &&& packets.len() == roots.len()
        &&& forall|i: int|
            0 <= i < roots.len() ==> (#[trigger] packets[i]).decs() == batch_objects(roots[i])
                && packets[i].counter().decs() is Some
    }
}

/// The schedule is that of a pause.
pub open spec fn is_schedule(
    schedule: LxrSchedule,
    pause: Pause,
    m: MetadataView,
    s: ImmixSpaceView,
    prev_roots: Seq<Seq<usize>>,
) -> bool {
    &&& schedule.enabled@ == buckets_enabled(pause)
    &&& schedule.mark_zeroing@ == if pause == Pause::Full {
        space_chunks(m, s).map_values(
            |chunk: Chunk| ChunkMarkZeroing { chunks: one_chunk(chunk) },
        )
    } else {
        Seq::empty()
    }
    &&& takes_back(schedule.prev_root_decs@, prev_roots)
    &&& schedule.packets@ == pause_packets()
    &&& schedule.sentinel == (WorkBucketStage::STWRCDecsAndSweep, LxrPacket::RCBlockSweepEpilogue)
}

/// What the plan reports of a pause.
#[derive(Debug, Clone, Copy, PartialEq, Eq, Structural)]
pub struct RcStats {
    /// The pause had a trace.
    pub full: bool,
    /// Blocks freed by the nursery sweep.
    pub young: usize,
    /// Blocks freed by mature sweeps.
    pub mature: usize,
    /// Batches of roots of the previous collection.
    pub prev_roots: usize,
    /// Batches of roots of this collection.
    pub curr_roots: usize,
}

/// What the plan holds.
#[verifier::ext_equal]
pub ghost struct LxrView {
    /// The Immix space.
    pub s: ImmixSpaceView,
    /// The last collection defragmented.
    pub last_gc_was_defrag: bool,
    /// The pause in progress.
    pub current_pause: Option<Pause>,
    /// The pause before.
    pub previous_pause: Option<Pause>,
    /// The batches of root targets of the previous collection.
    pub prev_roots: Seq<Seq<usize>>,
    /// The batches of root targets of this collection.
    pub curr_roots: Seq<Seq<usize>>,
    /// A trace is pending.
    pub backup_pending: bool,
    /// Pages in use when the pause started.
    pub used_at_pause_start: usize,
}

/// The LXR plan.
pub struct LXR {
    /// The Immix space.
    pub immix_space: ImmixSpace,
    last_gc_was_defrag: bool,
    current_pause: Atomic<u8>,
    previous_pause: Atomic<u8>,
    /// The batches of root targets of the previous collection, which this one decrements.
    pub prev_roots: SegQueue<Vec<usize>>,
    /// The batches of root targets of this collection.
    pub curr_roots: SegQueue<Vec<usize>>,
    backup_pending: bool,
    used_at_pause_start: usize,
}

impl View for LXR {
    type V = LxrView;

    closed spec fn view(&self) -> LxrView {
        LxrView {
            s: self.immix_space@,
            last_gc_was_defrag: self.last_gc_was_defrag,
            current_pause: code_pause(stored_code(self.current_pause)),
            previous_pause: code_pause(stored_code(self.previous_pause)),
            prev_roots: batches(self.prev_roots),
            curr_roots: batches(self.curr_roots),
            backup_pending: self.backup_pending,
            used_at_pause_start: self.used_at_pause_start,
        }
    }
}

impl LXR {
    /// The global tables that the plan registers: the log bits that are on the side, and the
    /// reference counts.
    pub fn global_side_metadata_specs(
        log_bit: MetadataLocation,
        field_unlog_bit: MetadataLocation,
    ) -> (specs: Vec<GlobalSpec>)
        ensures
            specs@ == (if log_bit is OnSide {
                seq![GlobalSpec::LogBit]
            } else {
                Seq::empty()
            }) + (if field_unlog_bit is OnSide {
                seq![GlobalSpec::FieldUnlogBit]
            } else {
                Seq::empty()
            }) + seq![GlobalSpec::RcTable],
    {
        let mut specs: Vec<GlobalSpec> = Vec::new();
        if let MetadataLocation::OnSide = log_bit {
            specs.push(GlobalSpec::LogBit);
        }
        if let MetadataLocation::OnSide = field_unlog_bit {
            specs.push(GlobalSpec::FieldUnlogBit);
        }
        specs.push(GlobalSpec::RcTable);
        specs
    }

    /// What the plan demands. Objects are promoted in place and never move.
    pub fn constraints() -> (constraints: PlanConstraints)
        ensures
            constraints == (PlanConstraints {
                moves_objects: false,
                max_non_los_default_alloc_bytes: MAX_IMMIX_OBJECT_SIZE,
                needs_log_bit: true,
                needs_field_log_bit: true,
                rc_enabled: true,
                barrier: BarrierSelector::FieldBarrier,
            }),
    {
        PlanConstraints {
            moves_objects: false,
            max_non_los_default_alloc_bytes: MAX_IMMIX_OBJECT_SIZE,
            needs_log_bit: true,
            needs_field_log_bit: true,
            rc_enabled: true,
            barrier: BarrierSelector::FieldBarrier,
        }
    }

    /// The plan before its first collection, for a heap of `chunks` chunks. Its space counts
    /// references and never moves objects.
    pub fn new(
        vm: VmConfig,
        chunks: usize,
        num_workers: usize,
        always_defrag: bool,
        defrag_every_block: bool,
        track_frees: bool,
    ) -> (lxr: Self)
        ensures
            lxr@ == (LxrView {
                s: new_space(
                    PlanCreateSpaceArgs {
                        unlog_traced_object: false,
                        needs_log_bit: true,
                        rc_enabled: true,
                        force_non_moving: false,
                        chunks,
                        num_workers,
                        always_defrag,
                        defrag_every_block,
                        track_frees,
                        vm,
                    },
                    ImmixSpaceArgs { mixed_age: false, never_move_objects: true },
                ),
                last_gc_was_defrag: false,
                current_pause: None,
                previous_pause: None,
                prev_roots: Seq::empty(),
                curr_roots: Seq::empty(),
                backup_pending: false,
                used_at_pause_start: 0,
            }),
    {
        let constraints: PlanConstraints = Self::constraints();
        let immix_space: ImmixSpace = ImmixSpace::new(
            PlanCreateSpaceArgs {
                unlog_traced_object: false,
                needs_log_bit: constraints.needs_log_bit,
                rc_enabled: constraints.rc_enabled,
                force_non_moving: false,
                chunks,
                num_workers,
                always_defrag,
                defrag_every_block,
                track_frees,
                vm,
            },
            ImmixSpaceArgs { mixed_age: false, never_move_objects: true },
        );
        let lxr = LXR {
            immix_space,
            last_gc_was_defrag: false,
            current_pause: new_code(encode_pause(None)),
            previous_pause: new_code(encode_pause(None)),
            prev_roots: new_batch_queue(),
            curr_roots: new_batch_queue(),
            backup_pending: false,
            used_at_pause_start: 0,
        };
        assert(batches(lxr.prev_roots) =~= Seq::empty());
        assert(batches(lxr.curr_roots) =~= Seq::empty());
        lxr
    }

    /// Where the plan's copies go.
    pub fn copy_selector(semantics: CopySemantics) -> (selector: CopySelector)
        ensures
            selector == (if semantics == CopySemantics::DefaultCopy {
                CopySelector::Immix { index: 0 }
            } else {
                CopySelector::Unused
            }),
    {
        if semantics == CopySemantics::DefaultCopy {
            CopySelector::Immix { index: 0 }
        } else {
            CopySelector::Unused
        }
    }

    /// Whether the last collection reclaimed all that it could.
    pub fn last_collection_was_exhaustive(&self) -> (exhaustive: bool)
        ensures
            exhaustive == (self@.s.space_args.never_move_objects || self@.last_gc_was_defrag),
    {
        self.immix_space.is_last_gc_exhaustive(self.last_gc_was_defrag)
    }

    /// Whether a concurrent trace is in progress. The plan has none.
    pub fn cm_in_progress(&self) -> (in_progress: bool)
        ensures
            !in_progress,
    {
        false
    }

    /// Whether concurrent traces are enabled. The plan has none.
    pub fn cm_enabled(&self) -> (enabled: bool)
        ensures
            !enabled,
    {
        false
    }

    /// Whether a concurrent trace is in progress or in its last pause.
    pub fn cm_in_progress_or_final_mark(&self) -> (result: bool)
        ensures
            result == (self@.current_pause == Some(Pause::FinalMark)),
    {
        self.cm_in_progress() || match self.current_pause() {
            Some(pause) => pause == Pause::FinalMark,
            None => false,
        }
    }

    /// The pause in progress.
    pub fn current_pause(&self) -> (pause: Option<Pause>)
        ensures
            pause == self@.current_pause,
    {
        decode_pause(load_code(&self.current_pause))
    }

    /// The pause before.
    pub fn previous_pause(&self) -> (pause: Option<Pause>)
        ensures
            pause == self@.previous_pause,
    {
        decode_pause(load_code(&self.previous_pause))
    }

    /// Whether an object carries the mark of the current collection.
    pub fn is_marked(&self, meta: &HeapMetadata, object: ObjectReference) -> (marked: bool)
        requires
            meta.wf(),
            meta@.in_heap(object.addr()),
        ensures
            marked == self@.s.marked(meta@, object.addr()),
    {
        self.immix_space.is_marked(meta, object)
    }

    /// Marks an object that was not marked. Returns true iff this call did.
    pub fn mark(&self, meta: &mut HeapMetadata, object: ObjectReference) -> (marked: bool)
        requires
            old(meta).wf(),
            old(meta)@.in_heap(object.addr()),
        ensures
            final(meta).wf(),
            marked == (old(meta)@.mark[old(meta)@.cell(object.addr())] == 0),
            final(meta)@ == if marked {
                with_mark(old(meta)@, object.addr(), 1)
            } else {
                old(meta)@
            },
    {
        self.immix_space.attempt_mark_rc(meta, object)
    }

    /// Whether an object is in a block that is being emptied. The plan empties none.
    pub fn in_defrag(&self, object: ObjectReference) -> (in_defrag: bool)
        ensures
            !in_defrag,
    {
        false
    }

    /// Whether an address is in a block that is being emptied. The plan empties none.
    pub fn address_in_defrag(&self, address: Address) -> (in_defrag: bool)
        ensures
            !in_defrag,
    {
        false
    }

    /// Whether the current collection may move objects. None does.
    pub fn current_gc_may_move_object(&self) -> (may: bool)
        ensures
            !may,
    {
        false
    }

    /// Pages in use: those of the Immix space and those of the common spaces.
    pub fn get_used_pages(&self, immix_pages: usize, common_pages: usize) -> (pages: usize)
        requires
            immix_pages + common_pages <= usize::MAX,
        ensures
            pages == immix_pages + common_pages,
    {
        immix_pages + common_pages
    }

    /// Chooses the kind of the next pause. A pending trace is taken.
    fn select_collection_kind(&mut self, env: &Environment) -> (pause: Pause)
        ensures
            pause == next_pause(*env, old(self)@.backup_pending),
            final(self)@ == (LxrView {
                backup_pending: pending_after_choice(*env, old(self)@.backup_pending),
                ..old(self)@
            }),
    {
        if backup_trace_disabled(env) {
            return Pause::RefCount;
        }
        let pending: bool = self.backup_pending;
        self.backup_pending = false;
        if pending {
            Pause::Full
        } else {
            Pause::RefCount
        }
    }

    /// The buckets that a pause switches off or on.
    fn disable_unnecessary_buckets(pause: Pause) -> (enabled: Vec<(WorkBucketStage, bool)>)
        ensures
            enabled@ == buckets_enabled(pause),
    {
        let mut enabled: Vec<(WorkBucketStage, bool)> = Vec::new();
        enabled.push((WorkBucketStage::SoftRefClosure, false));
        enabled.push((WorkBucketStage::WeakRefClosure, false));
        enabled.push((WorkBucketStage::FinalRefClosure, false));
        enabled.push((WorkBucketStage::PhantomRefClosure, false));
        enabled.push((WorkBucketStage::CalculateForwarding, false));
        enabled.push((WorkBucketStage::SecondRoots, false));
        enabled.push((WorkBucketStage::RefForwarding, false));
        enabled.push((WorkBucketStage::FinalizableForwarding, false));
        enabled.push((WorkBucketStage::Compact, false));
        enabled.push((WorkBucketStage::Closure, pause == Pause::Full));
        assert(enabled@ =~= buckets_enabled(pause));
        enabled
    }

    /// Turns the batches of roots of the previous collection into packets of decrements. There is
    /// always at least one packet.
    fn process_prev_roots(&mut self) -> (packets: Vec<ProcessDecs>)
        ensures
            takes_back(packets@, old(self)@.prev_roots),
            final(self)@ == (LxrView { prev_roots: Seq::empty(), ..old(self)@ }),
    {
        let ghost start: LxrView = self@;
        let ghost roots: Seq<Seq<usize>> = start.prev_roots;
        let mut packets: Vec<ProcessDecs> = Vec::new();
        let ghost mut n: int = 0;
        assert(roots.subrange(0, roots.len() as int) =~= roots);
        loop
            invariant_except_break
                0 <= n <= roots.len(),
                packets@.len() == n,
                self@ == (LxrView {
                    prev_roots: roots.subrange(n, roots.len() as int),
                    ..start
                }),
            invariant
                roots == start.prev_roots,
                forall|i: int|
                    0 <= i < packets@.len() ==> (#[trigger] packets@[i]).decs() == batch_objects(
                        roots[i],
                    ) && packets@[i].counter().decs() is Some,
            ensures
                packets@.len() == roots.len(),
                self@ == (LxrView { prev_roots: Seq::empty(), ..start }),
            decreases roots.len() - n,
        {
            let ghost queue: Seq<Vec<usize>> = queued_batches(self.prev_roots);
            assert(self@.prev_roots == roots.subrange(n, roots.len() as int));
            assert(queue.map_values(|batch: Vec<usize>| batch@) == roots.subrange(
                n,
                roots.len() as int,
            ));
            match pop_batch(&mut self.prev_roots) {
                Some(batch) => {
                    proof {
                        let rest = roots.subrange(n, roots.len() as int);
                        assert(rest.len() == queue.len() && queue.len() > 0);
                        assert(batches(self.prev_roots).len() == rest.len() - 1);
                        assert forall|i: int| 0 <= i < rest.len() - 1 implies #[trigger] batches(
                            self.prev_roots,
                        )[i] == rest[i + 1] by {
                            assert(queue.drop_first()[i] == queue[i + 1]);
                        }
                        assert(batches(self.prev_roots) =~= roots.subrange(
                            n + 1,
                            roots.len() as int,
                        ));
                        assert(roots.subrange(n, roots.len() as int)[0] == batch@);
                    }
                    let decs: Vec<ObjectReference> = objects_of(&batch);
                    packets.push(ProcessDecs::new(decs, LazySweepingJobsCounter::new_decs()));
                    proof {
                        n = n + 1;
                    }
                },
                None => {
                    assert(roots.subrange(n, roots.len() as int).len() == 0);
                    assert(batches(self.prev_roots) =~= Seq::empty());
                    break;
                },
            }
        }
        if packets.len() == 0 {
            packets.push(ProcessDecs::new(Vec::new(), LazySweepingJobsCounter::new_decs()));
        }
        packets
    }

    /// The schedule of a pause.
    fn schedule_pause(&mut self, meta: &HeapMetadata, pause: Pause) -> (schedule: LxrSchedule)
        requires
            meta.wf(),
            old(self)@.s.wf(meta@),
            pause == Pause::RefCount || pause == Pause::Full,
        ensures
            is_schedule(schedule, pause, meta@, old(self)@.s, old(self)@.prev_roots),
            final(self)@ == (LxrView { prev_roots: Seq::empty(), ..old(self)@ }),
    {
        let enabled: Vec<(WorkBucketStage, bool)> = Self::disable_unnecessary_buckets(pause);
        let mark_zeroing: Vec<ChunkMarkZeroing> = if pause == Pause::Full {
            self.immix_space.schedule_mark_table_zeroing(meta)
        } else {
            Vec::new()
        };
        let prev_root_decs: Vec<ProcessDecs> = self.process_prev_roots();
        let mut packets: Vec<(WorkBucketStage, LxrPacket)> = Vec::new();
        packets.push((WorkBucketStage::Unconstrained, LxrPacket::StopMutators));
        packets.push((WorkBucketStage::RCProcessIncs, LxrPacket::FastRCPrepare));
        packets.push((WorkBucketStage::Release, LxrPacket::Release));
        assert(packets@ =~= pause_packets());
        LxrSchedule {
            enabled,
            mark_zeroing,
            prev_root_decs,
            packets,
            sentinel: (WorkBucketStage::STWRCDecsAndSweep, LxrPacket::RCBlockSweepEpilogue),
        }
    }

    /// Starts a pause when `used_pages` pages are in use, and returns what to schedule.
    pub fn schedule_collection(
        &mut self,
        meta: &HeapMetadata,
        used_pages: usize,
        env: &Environment,
    ) -> (schedule: LxrSchedule)
        requires
            meta.wf(),
            old(self)@.s.wf(meta@),
        ensures
            ({
                let pause = next_pause(*env, old(self)@.backup_pending);
                &&& is_schedule(schedule, pause, meta@, old(self)@.s, old(self)@.prev_roots)
                &&& final(self)@ == (LxrView {
                    current_pause: Some(pause),
                    prev_roots: Seq::empty(),
                    backup_pending: pending_after_choice(*env, old(self)@.backup_pending),
                    used_at_pause_start: used_pages,
                    ..old(self)@
                })
            }),
    {
        self.used_at_pause_start = used_pages;
        let pause: Pause = self.select_collection_kind(env);
        store_code(&mut self.current_pause, encode_pause(Some(pause)));
        self.schedule_pause(meta, pause)
    }

    /// Prepares the plan in a pause. Returns whether the common spaces prepare for a trace of the
    /// whole heap.
    pub fn prepare(&mut self) -> (full_heap: bool)
        requires
            old(self)@.current_pause == Some(Pause::RefCount) || old(self)@.current_pause == Some(
                Pause::Full,
            ),
        ensures
            !full_heap,
            final(self)@ == (LxrView {
                s: old(self)@.s.rc_prepared(old(self)@.current_pause->0),
                ..old(self)@
            }),
    {
        let pause: Option<Pause> = self.current_pause();
        self.immix_space.prepare_rc(pause.unwrap());
        false
    }

    /// Releases the plan in a pause: the roots of this collection become those that the next one
    /// decrements. Returns whether the common spaces release a trace of the whole heap.
    pub fn release(&mut self, meta: &mut HeapMetadata) -> (full_heap: bool)
        requires
            old(meta).wf(),
            old(self)@.current_pause == Some(Pause::RefCount) || old(self)@.current_pause == Some(
                Pause::Full,
            ),
            old(self)@.prev_roots.len() == 0,
        ensures
            !full_heap,
            final(meta).wf(),
            final(meta)@ == (MetadataView { inc_buffer_size: 0, ..old(meta)@ }),
            final(self)@ == (LxrView {
                s: old(self)@.s.rc_released(),
                prev_roots: old(self)@.curr_roots,
                curr_roots: Seq::empty(),
                ..old(self)@
            }),
    {
        let pause: Option<Pause> = self.current_pause();
        self.immix_space.release_rc(meta, pause.unwrap());
        std::mem::swap(&mut self.prev_roots, &mut self.curr_roots);
        assert(self@.curr_roots =~= Seq::empty());
        false
    }

    /// Asks for a trace in the next pause, if the reference-counting pause that ends left the heap
    /// full and freed little.
    fn evaluate_rc_effectiveness(
        &mut self,
        total_pages: usize,
        used_pages: usize,
        env: &Environment,
    )
        ensures
            final(self)@ == (LxrView {
                backup_pending: pending_after_pause(
                    *env,
                    old(self)@.backup_pending,
                    old(self)@.current_pause,
                    total_pages,
                    old(self)@.used_at_pause_start,
                    used_pages,
                ),
                ..old(self)@
            }),
    {
        let counting: bool = match self.current_pause() {
            Some(pause) => pause == Pause::RefCount,
            None => false,
        };
        if backup_trace_disabled(env) || !counting {
            return;
        }
        if total_pages == 0 {
            return;
        }
        let used_before: usize = self.used_at_pause_start;
        let freed: usize = used_before.saturating_sub(used_pages);
        let still_full: bool = is_at_least_pct(used_pages, total_pages, backup_lo_pct(env));
        let under: bool = !is_at_least_pct(freed, total_pages, backup_min_reclaim_pct(env));
        let hi: usize = backup_hi_pct(env);
        let critical: bool = hi > 0 && is_at_least_pct(used_pages, total_pages, hi);
        if (still_full && under) || critical {
            self.backup_pending = true;
        }
    }

    /// What there is to report of the pause, if it is reported at all. The counts of freed blocks
    /// start over.
    fn dump_rc_stats(&mut self, debug_on: bool) -> (stats: Option<RcStats>)
        ensures
            !debug_on ==> stats is None && final(self)@ == old(self)@,
            debug_on ==> stats == Some(
                RcStats {
                    full: old(self)@.current_pause == Some(Pause::Full),
                    young: old(self)@.s.num_clean_blocks_released_young,
                    mature: old(self)@.s.num_clean_blocks_released_mature,
                    prev_roots: old(self)@.prev_roots.len() as usize,
                    curr_roots: old(self)@.curr_roots.len() as usize,
                },
            ) && final(self)@ == (LxrView {
                s: ImmixSpaceView {
                    num_clean_blocks_released_young: 0,
                    num_clean_blocks_released_mature: 0,
                    ..old(self)@.s
                },
                ..old(self)@
            }),
    {
        if !debug_on {
            return None;
        }
        let young: usize = self.immix_space.num_clean_blocks_released_young;
        let mature: usize = self.immix_space.num_clean_blocks_released_mature;
        self.immix_space.num_clean_blocks_released_young = 0;
        self.immix_space.num_clean_blocks_released_mature = 0;
        let full: bool = match self.current_pause() {
            Some(pause) => pause == Pause::Full,
            None => false,
        };
        Some(
            RcStats {
                full,
                young,
                mature,
                prev_roots: count_batches(&self.prev_roots),
                curr_roots: count_batches(&self.curr_roots),
            },
        )
    }

    /// Ends a pause, when `used_pages` of `total_pages` pages are in use. Returns what there is to
    /// report.
    pub fn end_of_gc(
        &mut self,
        total_pages: usize,
        used_pages: usize,
        env: &Environment,
        debug_on: bool,
    ) -> (stats: Option<RcStats>)
        ensures
            stats is Some == debug_on,
            final(self)@ == (LxrView {
                s: if debug_on {
                    ImmixSpaceView {
                        num_clean_blocks_released_young: 0,
                        num_clean_blocks_released_mature: 0,
                        ..old(self)@.s
                    }
                } else {
                    old(self)@.s
                },
                backup_pending: pending_after_pause(
                    *env,
                    old(self)@.backup_pending,
                    old(self)@.current_pause,
                    total_pages,
                    old(self)@.used_at_pause_start,
                    used_pages,
                ),
                previous_pause: old(self)@.current_pause,
                current_pause: None,
                last_gc_was_defrag: false,
                ..old(self)@
            }),
            stats matches Some(s) ==> s == (RcStats {
                full: old(self)@.current_pause == Some(Pause::Full),
                young: old(self)@.s.num_clean_blocks_released_young,
                mature: old(self)@.s.num_clean_blocks_released_mature,
                prev_roots: old(self)@.prev_roots.len() as usize,
                curr_roots: old(self)@.curr_roots.len() as usize,
            }),
    {
        self.evaluate_rc_effectiveness(total_pages, used_pages, env);
        let stats: Option<RcStats> = self.dump_rc_stats(debug_on);
        let pause: Option<Pause> = self.current_pause();
        proof {
            law_pause_code_round_trips(pause);
        }
        store_code(&mut self.previous_pause, encode_pause(pause));
        store_code(&mut self.current_pause, encode_pause(None));
        self.last_gc_was_defrag = false;
        stats
    }
}

/// The objects of a batch of addresses.
fn objects_of(batch: &Vec<usize>) -> (objects: Vec<ObjectReference>)
    ensures
        objects@ == batch_objects(batch@),
{
    let mut objects: Vec<ObjectReference> = Vec::new();
    let mut i: usize = 0;
    while i < batch.len()
        invariant
            i <= batch@.len(),
            objects@ == batch_objects(batch@.subrange(0, i as int)),
        decreases batch@.len() - i,
    {
        assert(batch@.subrange(0, i + 1) =~= batch@.subrange(0, i as int).push(batch@[i as int]));
        objects.push(ObjectReference(Address(batch[i])));
        i += 1;
        assert(objects@ =~= batch_objects(batch@.subrange(0, i as int)));
    }
    assert(batch@.subrange(0, batch@.len() as int) =~= batch@);
    objects
}

/// What a batch of roots refers to in the spaces is incremented in this collection, and the next
/// collection decrements exactly that: of the packets that take the batches back, the last one
/// holds the targets.
pub proof fn law_root_increments_are_taken_back(
    objects: ObjectModel,
    slots: Seq<Slot>,
    m: MetadataView,
    m2: MetadataView,
    s: ImmixSpaceView,
    s2: ImmixSpaceView,
    q: Seq<Seq<usize>>,
    q2: Seq<Seq<usize>>,
    handed_on: Seq<Seq<Slot>>,
    packets: Seq<ProcessDecs>,
)
    requires
        m.wf(),
        objects.fits(m),
        objects.fields_valid(m),
        roots_processed(objects, slots, m, m2, s, s2, q, q2, handed_on),
        takes_back(packets, q2),
        targets_in_spaces(m, objects, slots).len() > 0,
    ensures
        packets.len() == q.len() + 1,
        packets.last().decs() == batch_objects(targets_in_spaces(m, objects, slots)),
        forall|i: int|
            0 <= i < q.len() ==> (#[trigger] packets[i]).decs() == batch_objects(q[i]),
{
    let start = IncState {
        m,
        s,
        new_incs: Seq::empty(),
        scheduled: Seq::empty(),
        roots: Seq::empty(),
    };
    crate::plan::lxr::laws::law_root_targets_are_remembered(start, objects, slots);
    assert(start.roots + targets_in_spaces(m, objects, slots) =~= targets_in_spaces(
        m,
        objects,
        slots,
    ));
    assert(q2 == q.push(targets_in_spaces(m, objects, slots)));
    assert(packets.last() == packets[q.len() as int]);
    assert forall|i: int| 0 <= i < q.len() implies (#[trigger] packets[i]).decs() == batch_objects(
        q[i],
    ) by {
        assert(q2[i] == q[i]);
    }
}

} // verus!
