//! The Bactrian plan: which pause comes next, and what each pause does with the spaces.

use crate::args::Environment;
use crate::plan::concurrent::bactrian::settings::{
    age_setting, compact_threshold, compact_util_threshold_pct, conc_mark_min_mature_mb,
    conc_mark_min_mature_pages, marks_in_slices, nursery_age, pages_in, sizes_fit,
    slice_max_nursery_mb, slice_max_nursery_pages, slices,
};
use crate::plan::concurrent::bactrian::young::{CommonSpaces, CommonView, CopySpace};
use crate::plan::concurrent::global::ConcurrentPlan;
use crate::plan::concurrent::{code_pause, decode_pause, encode_pause, Pause};
use crate::plan::constraints::{
    BarrierSelector, CopySelector, CopySemantics, GenerationalConstraints, PlanConstraints,
    MAX_IMMIX_OBJECT_SIZE,
};
use crate::policy::immix::chunk_work::{FlushPageResource, PrepareBlockState, SweepChunk};
use crate::policy::immix::defrag::DefragView;
use crate::policy::immix::immixspace::{
    new_space, traced_in_place, ImmixSpace, ImmixSpaceArgs, ImmixSpaceView, PlanCreateSpaceArgs,
};
use crate::policy::immix::line::{first_line, last_line};
use crate::policy::immix::block::BlockState;
use crate::policy::immix::space_gc::{
    lemma_space_chunks, prepares, space_chunks, sweeps, PrepareWork, SweepTasks,
};
use crate::scheduler::WorkBucketStage;
use crate::util::address::{Address, ObjectReference};
use crate::util::atomic_code::{load_code, new_code, store_code, stored_code};
use crate::util::constants::{BLOCKS_IN_CHUNK, BYTES_IN_PAGE};
use crate::util::deque::{ParkedChunks, ParkedPackets, Taken};
use crate::util::heap::chunk_map::{chunk_at, chunks_set, law_chunks_set_lists_each_once};
use crate::util::linear_scan::Chunk;
use crate::util::log_bit::UnlogBitsOperation;
use crate::util::metadata::{HeapMetadata, MetadataView, SpaceKind};
use crate::util::side_metadata::filled;
use crate::util::vm::{ObjectModel, VmConfig};
use atomic::Atomic;
use vstd::prelude::*;

verus! {

/// What the plan holds.
pub ghost struct BactrianView {
    /// The mature space.
    pub s: ImmixSpaceView,
    /// The nursery.
    pub nursery: CopySpace,
    /// The first space of aged objects.
    pub aged0: CopySpace,
    /// The second space of aged objects.
    pub aged1: CopySpace,
    /// The large-object space and the other common spaces.
    pub common: CommonView,
    /// The second space of aged objects is the one that is copied to.
    pub aged_hi: bool,
    /// Survivors of the nursery stay young in this pause.
    pub aging_this_gc: bool,
    /// The last collection defragmented.
    pub last_gc_was_defrag: bool,
    /// The pause in progress.
    pub current_pause: Option<Pause>,
    /// The pause before.
    pub previous_pause: Option<Pause>,
    /// Marking happens in slices within pauses.
    pub sliced_marking: bool,
    /// The parked marking packets: whether each came from a write barrier, and its objects.
    pub parked_marking: Seq<(bool, Seq<usize>)>,
    /// The chunks that wait for their sweep.
    pub parked_sweep: Seq<usize>,
    /// How many sweep packets are still to run.
    pub sweep_counter: usize,
    /// The sweep of a cycle is not complete.
    pub sweep_pending: bool,
    /// A pause for progress was asked for.
    pub progress_pause_requested: bool,
    /// How long a pause should mark, in nanoseconds.
    pub mark_quantum_hint_nanos: u64,
    /// The allocation of mature objects asked for the cycle.
    pub cycle_tick_origin: bool,
    /// A compaction of the mature space was asked for.
    pub compact_requested: bool,
    /// A marking cycle is in progress.
    pub concurrent_marking_active: bool,
    /// New objects count as live.
    pub allocate_as_live: bool,
    /// The current collection is one of the whole heap.
    pub gc_full_heap: bool,
    /// A major collection was asked for.
    pub next_gc_full_heap: bool,
    /// What had been handed to marking packets when the last quantum ended.
    pub enqueued_at_last_quantum: usize,
}

/// The Bactrian plan.
pub struct Bactrian {
    /// The mature space.
    pub immix_space: ImmixSpace,
    /// The nursery.
    pub nursery: CopySpace,
    /// The first space of aged objects.
    pub aged0: CopySpace,
    /// The second space of aged objects.
    pub aged1: CopySpace,
    /// The large-object space and the other common spaces.
    pub common: CommonSpaces,
    aged_hi: bool,
    aging_this_gc: bool,
    last_gc_was_defrag: bool,
    current_pause: Atomic<u8>,
    previous_pause: Atomic<u8>,
    sliced_marking: bool,
    parked_marking: ParkedPackets,
    parked_sweep: ParkedChunks,
    sweep_epilogue: FlushPageResource,
    sweep_pending: bool,
    progress_pause_requested: bool,
    mark_quantum_hint_nanos: u64,
    cycle_tick_origin: bool,
    compact_requested: bool,
    concurrent_marking_active: bool,
    allocate_as_live: bool,
    gc_full_heap: bool,
    next_gc_full_heap: bool,
    enqueued_at_last_quantum: usize,
}

impl View for Bactrian {
    type V = BactrianView;

    closed spec fn view(&self) -> BactrianView {
        BactrianView {
            s: self.immix_space@,
            nursery: self.nursery,
            aged0: self.aged0,
            aged1: self.aged1,
            common: self.common@,
            aged_hi: self.aged_hi,
            aging_this_gc: self.aging_this_gc,
            last_gc_was_defrag: self.last_gc_was_defrag,
            current_pause: code_pause(stored_code(self.current_pause)),
            previous_pause: code_pause(stored_code(self.previous_pause)),
            sliced_marking: self.sliced_marking,
            parked_marking: self.parked_marking@,
            parked_sweep: self.parked_sweep@,
            sweep_counter: self.sweep_epilogue.counter,
            sweep_pending: self.sweep_pending,
            progress_pause_requested: self.progress_pause_requested,
            mark_quantum_hint_nanos: self.mark_quantum_hint_nanos,
            cycle_tick_origin: self.cycle_tick_origin,
            compact_requested: self.compact_requested,
            concurrent_marking_active: self.concurrent_marking_active,
            allocate_as_live: self.allocate_as_live,
            gc_full_heap: self.gc_full_heap,
            next_gc_full_heap: self.next_gc_full_heap,
            enqueued_at_last_quantum: self.enqueued_at_last_quantum,
        }
    }
}

/// What the choice of a pause goes by, besides the state of the plan.
#[derive(Debug, Clone, Copy, PartialEq, Eq, Structural)]
pub struct PauseInputs {
    /// No packet is left in the bucket for work beside the mutators.
    pub bucket_drained: bool,
    /// The user asked for the collection.
    pub user_triggered: bool,
    /// Collections that the user asks for collect the whole heap.
    pub full_heap_system_gc: bool,
    /// How often an allocation has led to a collection without success.
    pub collection_attempts: usize,
    /// The copies of a collection may not fit into the mature space.
    pub vm_exhausted: bool,
    /// Every collection of the nursery collects the whole heap.
    pub full_nursery_gc: bool,
    /// The largest size of the nursery, in pages.
    pub max_nursery_pages: usize,
    /// A slice would have to mark longer than slices may.
    pub hint_too_long: bool,
    /// The pages that the mature space has reserved.
    pub mature_pages: usize,
}

impl PauseInputs {
    /// An allocation has failed for good.
    pub open spec fn emergency(self) -> bool {
        self.collection_attempts > 2
    }
}

impl BactrianView {
    /// No marking packet is left.
    pub open spec fn drained(self, bucket_drained: bool) -> bool {
        if self.sliced_marking {
            self.parked_marking.len() == 0
        } else {
            bucket_drained
        }
    }

    /// Only pauses that leave the mature space alone are possible: a cycle is in progress, or its
    /// sweep.
    pub open spec fn busy(self) -> bool {
        self.concurrent_marking_active || (self.sliced_marking && self.sweep_pending)
    }

    /// The whole heap must be collected in one pause.
    pub open spec fn needs_full(self, inputs: PauseInputs) -> bool {
        ||| inputs.full_nursery_gc
        ||| inputs.user_triggered && (self.next_gc_full_heap || inputs.full_heap_system_gc)
        ||| inputs.emergency()
        ||| inputs.vm_exhausted
    }

    /// Marking in slices does not pay.
    pub open spec fn slicing_pointless(self, env: Environment, inputs: PauseInputs) -> bool {
        ||| inputs.max_nursery_pages > pages_in(slice_max_nursery_mb(env))
            && !self.cycle_tick_origin
        ||| inputs.hint_too_long
    }

    /// A major collection that is asked for is made in one pause rather than as a cycle.
    pub open spec fn cycle_pointless(self, env: Environment, inputs: PauseInputs) -> bool {
        ||| env.has("BACTRIAN_NO_CONCURRENT"@)
        ||| self.sliced_marking && self.slicing_pointless(env, inputs)
        ||| !self.sliced_marking && inputs.mature_pages < pages_in(conc_mark_min_mature_mb(env))
    }

    /// The pause that an idle plan would make next, but for a compaction.
    pub open spec fn wanted_pause(self, env: Environment, inputs: PauseInputs) -> Pause {
        if self.needs_full(inputs) {
            Pause::Full
        } else if self.next_gc_full_heap {
            if self.cycle_pointless(env, inputs) {
                Pause::Full
            } else {
                Pause::InitialMark
            }
        } else {
            Pause::Nursery
        }
    }

    /// The next pause compacts the mature space.
    pub open spec fn compacts(self, env: Environment, inputs: PauseInputs) -> bool {
        !self.busy() && self.compact_requested && self.wanted_pause(env, inputs) != Pause::Nursery
    }

    /// The next pause.
    pub open spec fn next_pause(self, env: Environment, inputs: PauseInputs) -> Pause {
        if self.concurrent_marking_active {
            if self.drained(inputs.bucket_drained) {
                Pause::FinalMark
            } else {
                Pause::Nursery
            }
        } else if self.busy() {
            Pause::Nursery
        } else if self.compacts(env, inputs) {
            Pause::Full
        } else {
            self.wanted_pause(env, inputs)
        }
    }

    /// The plan after the next pause was chosen. A busy plan keeps all requests.
    pub open spec fn pause_chosen(self, env: Environment, inputs: PauseInputs) -> BactrianView {
        if self.busy() {
            self
        } else if self.compacts(env, inputs) {
            BactrianView {
                next_gc_full_heap: false,
                compact_requested: false,
                s: self.s.compaction_requested(),
                ..self
            }
        } else {
            BactrianView { next_gc_full_heap: false, ..self }
        }
    }
}

/// While a cycle is in progress, no pause starts another one or collects the whole heap.
pub proof fn law_no_full_pause_while_marking(
    v: BactrianView,
    env: Environment,
    inputs: PauseInputs,
)
    requires
        v.concurrent_marking_active,
    ensures
        v.next_pause(env, inputs) == Pause::FinalMark || v.next_pause(env, inputs)
            == Pause::Nursery,
        v.next_pause(env, inputs) == Pause::FinalMark <==> v.drained(inputs.bucket_drained),
        v.pause_chosen(env, inputs) == v,
{
}

/// The last pause of a cycle comes only while one is in progress, and the first only while none
/// is and no sweep is left.
pub proof fn law_cycles_do_not_overlap(v: BactrianView, env: Environment, inputs: PauseInputs)
    ensures
        v.next_pause(env, inputs) == Pause::FinalMark ==> v.concurrent_marking_active,
        v.next_pause(env, inputs) == Pause::InitialMark || v.next_pause(env, inputs) == Pause::Full
            ==> !v.concurrent_marking_active && !(v.sliced_marking && v.sweep_pending),
{
}

/// A request for a major collection that comes during a cycle or its sweep stays until both are
/// done, and so does one for a compaction.
pub proof fn law_requests_stay_latched(v: BactrianView, env: Environment, inputs: PauseInputs)
    requires
        v.busy(),
    ensures
        v.pause_chosen(env, inputs).next_gc_full_heap == v.next_gc_full_heap,
        v.pause_chosen(env, inputs).compact_requested == v.compact_requested,
{
}

/// A compaction is never made by a cycle: where one is asked for, the next major collection is
/// made in one pause. Whatever is decided for it, it defragments, and every block in use becomes a
/// source.
pub proof fn law_compaction_rides_the_next_major(
    v: BactrianView,
    env: Environment,
    inputs: PauseInputs,
    decided: bool,
    packet: PrepareBlockState,
    m: MetadataView,
    i: int,
)
    requires
        !v.busy(),
        v.compact_requested,
        v.next_gc_full_heap,
        !v.s.space_args.never_move_objects,
        packet.compact_all == v.pause_chosen(env, inputs).s.defrag_decided(decided).compacts_all(),
    ensures
        v.next_pause(env, inputs) == Pause::Full,
        !v.pause_chosen(env, inputs).compact_requested,
        ({
            let s = v.pause_chosen(env, inputs).s.defrag_decided(decided);
            &&& s.defrag.in_defrag
            &&& s.compacts_all()
            &&& packet.makes_source(s, m, i)
        }),
{
}

/// Between cycles, and when no sweep is left, the whole heap is collected in one pause whenever it
/// must be: where every collection does, where the user asks for it, where an allocation has
/// failed for good, and where copies may not fit. No request for a cycle gets in the way.
pub proof fn law_full_collections_come_first(
    v: BactrianView,
    env: Environment,
    inputs: PauseInputs,
)
    requires
        !v.concurrent_marking_active,
        !v.sliced_marking || !v.sweep_pending,
        inputs.full_nursery_gc || (inputs.user_triggered && v.next_gc_full_heap) || (
        inputs.user_triggered && inputs.full_heap_system_gc) || inputs.collection_attempts >= 3
            || inputs.vm_exhausted,
    ensures
        v.next_pause(env, inputs) == Pause::Full,
        !v.pause_chosen(env, inputs).next_gc_full_heap,
{
}

/// A request for a major collection that comes from pressure alone starts a cycle, where cycles
/// are not switched off and pay: with slices, if the nursery is small or the request came from a
/// tick, and no slice would take too long; beside the mutators, if the mature space is large.
/// Where a cycle does not pay, or a compaction is asked for, the whole heap is collected in one
/// pause.
pub proof fn law_pressure_starts_a_cycle(v: BactrianView, env: Environment, inputs: PauseInputs)
    requires
        !v.concurrent_marking_active,
        !v.sliced_marking || !v.sweep_pending,
        v.next_gc_full_heap,
        !inputs.full_nursery_gc,
        !inputs.user_triggered,
        inputs.collection_attempts < 3,
        !inputs.vm_exhausted,
    ensures
        ({
            let pays = if v.sliced_marking {
                !inputs.hint_too_long && (v.cycle_tick_origin || inputs.max_nursery_pages
                    <= pages_in(slice_max_nursery_mb(env)))
            } else {
                inputs.mature_pages >= pages_in(conc_mark_min_mature_mb(env))
            };
            let cycle = pays && !env.has("BACTRIAN_NO_CONCURRENT"@) && !v.compact_requested;
            &&& cycle ==> v.next_pause(env, inputs) == Pause::InitialMark
            &&& !cycle ==> v.next_pause(env, inputs) == Pause::Full
            &&& !v.pause_chosen(env, inputs).next_gc_full_heap
            &&& !v.pause_chosen(env, inputs).compact_requested
        }),
{
}

/// While a cycle is in progress, its last pause comes as soon as no marking packet is left, and not
/// before. While its sweep is left, only the nursery is collected. Neither takes a request.
pub proof fn law_busy_plan_waits(v: BactrianView, env: Environment, inputs: PauseInputs)
    ensures
        v.concurrent_marking_active && v.sliced_marking ==> v.next_pause(env, inputs) == (
        if v.parked_marking.len() == 0 {
            Pause::FinalMark
        } else {
            Pause::Nursery
        }),
        v.concurrent_marking_active && !v.sliced_marking ==> v.next_pause(env, inputs) == (
        if inputs.bucket_drained {
            Pause::FinalMark
        } else {
            Pause::Nursery
        }),
        !v.concurrent_marking_active && v.sliced_marking && v.sweep_pending ==> v.next_pause(
            env,
            inputs,
        ) == Pause::Nursery,
        v.concurrent_marking_active || (v.sliced_marking && v.sweep_pending) ==> v.pause_chosen(
            env,
            inputs,
        ) == v,
{
}

/// The choice of a pause takes requests, and leaves everything else as it is. A request for a
/// compaction is passed on to the mature space when it is taken, and is taken by a major
/// collection only.
pub proof fn law_choice_only_takes_requests(v: BactrianView, env: Environment, inputs: PauseInputs)
    ensures
        ({
            let after = v.pause_chosen(env, inputs);
            &&& (BactrianView {
                next_gc_full_heap: v.next_gc_full_heap,
                compact_requested: v.compact_requested,
                s: v.s,
                ..after
            }) == v
            &&& after.compact_requested ==> v.compact_requested
            &&& after.next_gc_full_heap ==> v.next_gc_full_heap
            &&& v.compact_requested && !after.compact_requested ==> after.s.defrag.compact_all
                && v.next_pause(env, inputs) == Pause::Full
            &&& v.compact_requested == after.compact_requested ==> after.s == v.s
            &&& v.compact_requested && v.next_pause(env, inputs) == Pause::Full
                ==> !after.compact_requested
            &&& (ImmixSpaceView {
                defrag: DefragView { compact_all: v.s.defrag.compact_all, ..after.s.defrag },
                ..after.s
            }) == v.s
        }),
{
}

/// Without a request, an emergency or a shortage the next pause of an idle plan is one of the
/// nursery.
pub proof fn law_idle_plan_collects_the_nursery(
    v: BactrianView,
    env: Environment,
    inputs: PauseInputs,
)
    requires
        !v.busy(),
        !v.next_gc_full_heap,
        !inputs.full_nursery_gc,
        !(inputs.user_triggered && inputs.full_heap_system_gc),
        !inputs.emergency(),
        !inputs.vm_exhausted,
    ensures
        v.next_pause(env, inputs) == Pause::Nursery,
        v.pause_chosen(env, inputs) == v,
{
    assert(v.pause_chosen(env, inputs) =~= v);
}

impl BactrianView {
    /// The parts of the state agree with each other. New objects count as live from the first
    /// pause of a cycle until its last, and until its sweep is complete; a sweep is in progress
    /// only where there are slices, and never together with the first pause of a cycle or with a
    /// collection of the whole heap.
    pub open spec fn consistent(self) -> bool {
        &&& self.concurrent_marking_active && self.current_pause != Some(Pause::FinalMark)
            ==> self.allocate_as_live
        &&& self.sweep_pending ==> self.allocate_as_live
        &&& self.sweep_pending ==> self.sliced_marking
        &&& !self.sweep_pending ==> self.parked_sweep.len() == 0
        &&& self.sweep_counter == self.parked_sweep.len()
        &&& self.concurrent_marking_active && self.sweep_pending ==> self.current_pause == Some(
            Pause::FinalMark,
        )
        &&& self.current_pause == Some(Pause::InitialMark) || self.current_pause == Some(
            Pause::Full,
        ) ==> !self.sweep_pending
        &&& self.current_pause == Some(Pause::Full) ==> !self.concurrent_marking_active
        &&& self.current_pause == Some(Pause::FinalMark) ==> self.concurrent_marking_active
        &&& !self.sliced_marking ==> self.parked_marking.len() == 0
    }

    /// The plan fits the tables.
    pub open spec fn wf(self, m: MetadataView) -> bool {
        &&& self.s.wf(m)
        &&& !self.s.rc_enabled
        &&& self.s.vm.mark_bit is OnSide
    }

    /// The plan with both spaces of aged objects prepared to be emptied into the mature space.
    pub open spec fn aged_all_from(self) -> BactrianView {
        let promote = Some(CopySemantics::PromoteToMature);
        BactrianView {
            aged0: self.aged0.prepared_for(true, promote),
            aged1: self.aged1.prepared_for(true, promote),
            ..self
        }
    }

    /// Survivors stay young in the current pause: it is one of the nursery, survivors are to age,
    /// and no cycle is in progress. A young survivor of a snapshot could hold the only reference
    /// to a mature object, which the marker would miss.
    pub open spec fn ages(self, env: Environment) -> bool {
        self.current_pause == Some(Pause::Nursery) && age_setting(env) >= 1
            && !self.concurrent_marking_active
    }

    /// The plan with the spaces of aged objects exchanged: those that have aged are promoted, and
    /// the survivors of the nursery take their place.
    pub open spec fn aged_flipped(self) -> BactrianView {
        let hi = !self.aged_hi;
        let promote = Some(CopySemantics::PromoteToMature);
        BactrianView {
            aged_hi: hi,
            aged0: self.aged0.prepared_for(
                hi,
                if hi {
                    promote
                } else {
                    None
                },
            ),
            aged1: self.aged1.prepared_for(
                !hi,
                if hi {
                    None
                } else {
                    promote
                },
            ),
            nursery: CopySpace { copy: Some(CopySemantics::Nursery), ..self.nursery },
            ..self
        }
    }

    /// The plan after the preparation of the current pause.
    pub open spec fn prepared(self, env: Environment, spill_threshold: usize) -> BactrianView {
        let aged = BactrianView {
            aging_this_gc: self.ages(env),
            ..if self.ages(env) {
                self.aged_flipped()
            } else {
                self.aged_all_from()
            }
        };
        let emptied = self.nursery.prepared_for(true, Some(CopySemantics::PromoteToMature));
        match self.current_pause {
            Some(Pause::Full) => BactrianView {
                s: self.s.prepared(true, Some(spill_threshold)),
                ..aged
            },
            Some(Pause::InitialMark) => BactrianView {
                s: self.s.prepared(true, Some(spill_threshold)),
                nursery: emptied,
                concurrent_marking_active: true,
                allocate_as_live: true,
                ..aged
            },
            Some(Pause::FinalMark) => BactrianView { nursery: emptied, ..aged },
            _ => aged,
        }
    }

    /// The spaces of aged objects after the release of the current pause. Where survivors stayed
    /// young, only the space that was emptied is released.
    pub open spec fn aged_released(self) -> BactrianView {
        let spares = self.current_pause == Some(Pause::Nursery) && self.aging_this_gc;
        BactrianView {
            aged0: if spares && !self.aged_hi {
                self.aged0
            } else {
                self.aged0.after_release()
            },
            aged1: if spares && self.aged_hi {
                self.aged1
            } else {
                self.aged1.after_release()
            },
            ..self
        }
    }

    /// The plan after the release of the current pause. The last pause of a cycle leaves its
    /// sweep to later pauses, where there are slices.
    pub open spec fn after_release(self, m: MetadataView) -> BactrianView {
        let aged = self.aged_released();
        match self.current_pause {
            Some(Pause::Full) => BactrianView { s: self.s.released(true), ..aged },
            Some(Pause::FinalMark) => if self.sliced_marking {
                BactrianView {
                    s: self.s.released(true),
                    nursery: self.nursery.after_release(),
                    parked_sweep: chunk_addresses(space_chunks(m, self.s)),
                    sweep_counter: space_chunks(m, self.s).len() as usize,
                    sweep_pending: true,
                    ..aged
                }
            } else {
                BactrianView {
                    s: self.s.released(true),
                    nursery: self.nursery.after_release(),
                    ..aged
                }
            },
            _ => aged,
        }
    }

    /// The plan after the end of the current pause. `next_gc_full_heap` is the request that the
    /// generational part leaves.
    pub open spec fn ended(self, next_gc_full_heap: bool) -> BactrianView {
        let last = self.current_pause == Some(Pause::FinalMark);
        BactrianView {
            next_gc_full_heap,
            s: self.s.collection_ended(),
            last_gc_was_defrag: self.s.defrag.in_defrag,
            concurrent_marking_active: self.concurrent_marking_active && !last,
            allocate_as_live: self.allocate_as_live && !(last && !(self.sliced_marking
                && self.sweep_pending)),
            previous_pause: self.current_pause,
            current_pause: None,
            ..self
        }
    }

    /// An object is young: it is in the nursery or in a space of aged objects, or it is a young
    /// large object.
    pub open spec fn young(self, m: MetadataView, address: usize) -> bool {
        let space = m.space_of(address as int);
        ||| copied_young(space)
        ||| space == SpaceKind::LargeObject && self.common.young.contains(address)
    }
}

impl BactrianView {
    /// Objects are copied out of a space in the current pause.
    pub open spec fn emptied(self, space: SpaceKind) -> bool {
        match space {
            SpaceKind::Nursery => true,
            SpaceKind::Aged0 => self.aged0.from_space,
            SpaceKind::Aged1 => self.aged1.from_space,
            _ => false,
        }
    }
}

/// The tables after the fields of an object were scanned: where it is in the mature space, its
/// lines are marked.
pub open spec fn scanned(
    s: ImmixSpaceView,
    m: MetadataView,
    object: ObjectReference,
    size: usize,
) -> MetadataView {
    if m.space_of(object.addr()) == SpaceKind::Immix && !s.rc_enabled {
        MetadataView {
            line_mark: filled(
                m.line_mark,
                first_line(m, object.addr()),
                last_line(m, object.addr(), size as int),
                s.line_mark_state,
            ),
            ..m
        }
    } else {
        m
    }
}

/// The space holds young objects only, which are copied out of it.
pub open spec fn copied_young(space: SpaceKind) -> bool {
    space == SpaceKind::Nursery || space == SpaceKind::Aged0 || space == SpaceKind::Aged1
}

/// The addresses of chunks.
pub open spec fn chunk_addresses(chunks: Seq<Chunk>) -> Seq<usize> {
    chunks.map_values(|chunk: Chunk| chunk.0.0)
}

/// Survivors stay young only in a pause of the nursery while no cycle is in progress. So no young
/// object survives the pause that takes a snapshot, nor any pause until its cycle ends.
pub proof fn law_no_aging_while_marking(v: BactrianView, env: Environment, spill_threshold: usize)
    ensures
        v.prepared(env, spill_threshold).aging_this_gc ==> v.current_pause == Some(Pause::Nursery)
            && !v.prepared(env, spill_threshold).concurrent_marking_active,
        !v.prepared(env, spill_threshold).aging_this_gc ==> v.prepared(
            env,
            spill_threshold,
        ).aged0.from_space && v.prepared(env, spill_threshold).aged1.from_space,
{
}

/// Of the two spaces of aged objects one is emptied and the other is filled when survivors stay
/// young, and they take turns. Only the emptied one is released.
pub proof fn law_aged_spaces_take_turns(v: BactrianView, env: Environment, spill_threshold: usize, m: MetadataView)
    requires
        v.ages(env),
    ensures
        ({
            let during = v.prepared(env, spill_threshold);
            let after = during.after_release(m);
            &&& during.aged0.from_space != during.aged1.from_space
            &&& during.aged_hi != v.aged_hi
            &&& during.aged0.from_space == during.aged_hi
            &&& after.aged0.released == during.aged0.from_space
            &&& after.aged1.released == during.aged1.from_space
        }),
{
}

/// The parts of the state agree after every step of a pause, if they did before.
pub proof fn law_pauses_keep_the_state_consistent(
    v: BactrianView,
    env: Environment,
    inputs: PauseInputs,
    spill_threshold: usize,
    next_gc_full_heap: bool,
    m: MetadataView,
)
    requires
        v.consistent(),
    ensures
        v.current_pause is None ==> (BactrianView {
            current_pause: Some(v.next_pause(env, inputs)),
            gc_full_heap: v.next_pause(env, inputs) == Pause::Full,
            ..v.pause_chosen(env, inputs)
        }).consistent(),
        v.prepared(env, spill_threshold).consistent(),
        space_chunks(m, v.s).len() <= usize::MAX && (v.current_pause == Some(Pause::FinalMark)
            ==> v.allocate_as_live) ==> v.after_release(m).consistent(),
        v.ended(next_gc_full_heap).consistent(),
{
}

/// New objects count as live from the preparation of the first pause of a cycle on, beyond the end
/// of that pause.
pub proof fn law_first_pause_makes_new_objects_live(
    v: BactrianView,
    env: Environment,
    spill_threshold: usize,
)
    requires
        v.consistent(),
        v.current_pause == Some(Pause::InitialMark),
    ensures
        v.prepared(env, spill_threshold).concurrent_marking_active,
        v.prepared(env, spill_threshold).allocate_as_live,
        forall|next: bool|
            (#[trigger] v.prepared(env, spill_threshold).ended(next)).concurrent_marking_active
                && v.prepared(env, spill_threshold).ended(next).allocate_as_live,
{
}

/// New objects still count as live in the last pause of a cycle when it is released, and where its
/// sweep is left to later pauses, beyond the end of that pause.
pub proof fn law_last_pause_keeps_new_objects_live(
    v: BactrianView,
    env: Environment,
    inputs: PauseInputs,
    spill_threshold: usize,
    m: MetadataView,
)
    requires
        v.consistent(),
        v.current_pause is None,
        v.next_pause(env, inputs) == Pause::FinalMark,
    ensures
        ({
            let start = BactrianView {
                current_pause: Some(Pause::FinalMark),
                gc_full_heap: false,
                ..v.pause_chosen(env, inputs)
            };
            let during = start.prepared(env, spill_threshold);
            let after = during.after_release(m);
            &&& during.allocate_as_live
            &&& after.allocate_as_live
            &&& v.sliced_marking ==> forall|next: bool|
                (#[trigger] after.ended(next)).allocate_as_live && after.ended(next).sweep_pending
            &&& !v.sliced_marking ==> forall|next: bool|
                !(#[trigger] after.ended(next)).allocate_as_live
        }),
{
}

impl BactrianView {
    /// The current pause may start: a cycle is in progress in its last pause, and none is in its
    /// first or in a collection of the whole heap.
    pub open spec fn may_start(self) -> bool {
        match self.current_pause {
            Some(Pause::Full) => !self.concurrent_marking_active,
            Some(Pause::InitialMark) => !self.concurrent_marking_active,
            Some(Pause::FinalMark) => self.concurrent_marking_active,
            Some(Pause::Nursery) => true,
            None => false,
        }
    }
}

/// Every pause that the plan chooses may start.
pub proof fn law_chosen_pause_may_start(v: BactrianView, env: Environment, inputs: PauseInputs)
    ensures
        (BactrianView {
            current_pause: Some(v.next_pause(env, inputs)),
            ..v.pause_chosen(env, inputs)
        }).may_start(),
{
}

/// A quantum of marking or of sweeping that a pause schedules.
#[derive(Debug, Clone, Copy, PartialEq, Eq, Structural)]
pub enum BactrianPacket {
    /// Marks until the budget is spent, or all that is parked.
    MarkQuantum {
        /// There is a budget.
        budgeted: bool,
    },
    /// Sweeps until the budget is spent, or all that is parked.
    SweepQuantum {
        /// There is a budget.
        budgeted: bool,
    },
}

/// What the plan hands to the scheduler at the start of a pause.
pub struct BactrianSchedule {
    /// The pause.
    pub pause: Pause,
    /// The packets of a collection of the whole heap are scheduled, rather than those of a
    /// nursery collection.
    pub full_heap: bool,
    /// Further packets.
    pub packets: Vec<(WorkBucketStage, BactrianPacket)>,
}

/// The quantum of marking that a pause schedules: a nursery pause within a cycle marks for a
/// while, and the last pause of the cycle marks all.
pub open spec fn mark_quantum(v: BactrianView, pause: Pause, emergency: bool) -> Seq<
    (WorkBucketStage, BactrianPacket),
> {
    if v.sliced_marking && pause == Pause::Nursery && v.concurrent_marking_active {
        seq![(WorkBucketStage::Release, BactrianPacket::MarkQuantum { budgeted: !emergency })]
    } else if v.sliced_marking && pause == Pause::FinalMark {
        seq![(WorkBucketStage::Closure, BactrianPacket::MarkQuantum { budgeted: false })]
    } else {
        Seq::empty()
    }
}

/// The quantum of sweeping that a pause schedules. The last pause of a cycle schedules its own
/// when it has parked the chunks.
pub open spec fn sweep_quantum(v: BactrianView, pause: Pause, emergency: bool) -> Seq<
    (WorkBucketStage, BactrianPacket),
> {
    if v.sliced_marking && (pause == Pause::Nursery || pause == Pause::InitialMark)
        && v.sweep_pending {
        seq![(WorkBucketStage::Release, BactrianPacket::SweepQuantum { budgeted: !emergency })]
    } else {
        Seq::empty()
    }
}

/// Where marking happens in slices, every pause within a cycle marks, and every pause before the
/// sweep is complete sweeps: within a budget, but for an allocation that has failed for good. The
/// last pause of the cycle marks all that is left. Other pauses do neither.
pub proof fn law_every_pause_makes_progress(v: BactrianView, env: Environment, inputs: PauseInputs)
    requires
        v.sliced_marking,
    ensures
        ({
            let pause = v.next_pause(env, inputs);
            let urgent = inputs.collection_attempts >= 3;
            let marks = mark_quantum(v, pause, inputs.emergency());
            let sweeps = sweep_quantum(v, pause, inputs.emergency());
            &&& v.concurrent_marking_active && v.parked_marking.len() > 0 ==> marks.len() == 1
                && marks[0] == (
                WorkBucketStage::Release,
                BactrianPacket::MarkQuantum { budgeted: !urgent },
            )
            &&& v.concurrent_marking_active && v.parked_marking.len() == 0 ==> marks.len() == 1
                && marks[0] == (
                WorkBucketStage::Closure,
                BactrianPacket::MarkQuantum { budgeted: false },
            )
            &&& !v.concurrent_marking_active ==> marks.len() == 0
            &&& !v.concurrent_marking_active && v.sweep_pending ==> sweeps.len() == 1 && sweeps[0]
                == (WorkBucketStage::Release, BactrianPacket::SweepQuantum { budgeted: !urgent })
            &&& !v.sweep_pending ==> sweeps.len() == 0
        }),
{
}

impl Bactrian {
    /// What the plan demands. `max_copying` is the largest object that a copying plan does not
    /// put into the large-object space.
    pub fn constraints(max_copying: usize) -> (constraints: (
        PlanConstraints,
        GenerationalConstraints,
    ))
        ensures
            constraints.0 == (PlanConstraints {
                moves_objects: true,
                max_non_los_default_alloc_bytes: if MAX_IMMIX_OBJECT_SIZE < max_copying {
                    MAX_IMMIX_OBJECT_SIZE
                } else {
                    max_copying
                },
                needs_log_bit: true,
                needs_field_log_bit: false,
                rc_enabled: false,
                barrier: BarrierSelector::SATBBarrier,
            }),
            constraints.1 == (GenerationalConstraints {
                generational: true,
                may_trace_duplicate_edges: true,
                needs_prepare_mutator: true,
            }),
    {
        (
            PlanConstraints {
                moves_objects: true,
                max_non_los_default_alloc_bytes: if MAX_IMMIX_OBJECT_SIZE < max_copying {
                    MAX_IMMIX_OBJECT_SIZE
                } else {
                    max_copying
                },
                needs_log_bit: true,
                needs_field_log_bit: false,
                rc_enabled: false,
                barrier: BarrierSelector::SATBBarrier,
            },
            GenerationalConstraints {
                generational: true,
                may_trace_duplicate_edges: true,
                needs_prepare_mutator: true,
            },
        )
    }

    /// The plan before its first collection, for a heap of `chunks` chunks. Its mature space moves
    /// objects, and makes those that it traces unlogged.
    pub fn new(
        env: &Environment,
        vm: VmConfig,
        chunks: usize,
        num_workers: usize,
        always_defrag: bool,
        defrag_every_block: bool,
        track_frees: bool,
    ) -> (plan: Self)
        ensures
            plan@ == (BactrianView {
                s: new_space(
                    PlanCreateSpaceArgs {
                        unlog_traced_object: true,
                        needs_log_bit: true,
                        rc_enabled: false,
                        force_non_moving: false,
                        chunks,
                        num_workers,
                        always_defrag,
                        defrag_every_block,
                        track_frees,
                        vm,
                    },
                    ImmixSpaceArgs { mixed_age: false, never_move_objects: false },
                ),
                nursery: CopySpace { from_space: false, copy: None, released: false },
                aged0: CopySpace { from_space: false, copy: None, released: false },
                aged1: CopySpace { from_space: true, copy: None, released: false },
                common: CommonView {
                    young: Set::empty(),
                    untraced: Set::empty(),
                    full_semantics: false,
                },
                aged_hi: false,
                aging_this_gc: false,
                last_gc_was_defrag: false,
                current_pause: None,
                previous_pause: None,
                sliced_marking: slices(*env),
                parked_marking: Seq::empty(),
                parked_sweep: Seq::empty(),
                sweep_counter: 0,
                sweep_pending: false,
                progress_pause_requested: false,
                mark_quantum_hint_nanos: 0,
                cycle_tick_origin: false,
                compact_requested: false,
                concurrent_marking_active: false,
                allocate_as_live: false,
                gc_full_heap: false,
                next_gc_full_heap: false,
                enqueued_at_last_quantum: 0,
            }),
    {
        let immix_space: ImmixSpace = ImmixSpace::new(
            PlanCreateSpaceArgs {
                unlog_traced_object: true,
                needs_log_bit: true,
                rc_enabled: false,
                force_non_moving: false,
                chunks,
                num_workers,
                always_defrag,
                defrag_every_block,
                track_frees,
                vm,
            },
            ImmixSpaceArgs { mixed_age: false, never_move_objects: false },
        );
        let plan = Bactrian {
            immix_space,
            nursery: CopySpace::new(false),
            aged0: CopySpace::new(false),
            aged1: CopySpace::new(true),
            common: CommonSpaces::new(),
            aged_hi: false,
            aging_this_gc: false,
            last_gc_was_defrag: false,
            current_pause: new_code(encode_pause(None)),
            previous_pause: new_code(encode_pause(None)),
            sliced_marking: marks_in_slices(env),
            parked_marking: ParkedPackets::new(),
            parked_sweep: ParkedChunks::new(),
            sweep_epilogue: FlushPageResource { counter: 0 },
            sweep_pending: false,
            progress_pause_requested: false,
            mark_quantum_hint_nanos: 0,
            cycle_tick_origin: false,
            compact_requested: false,
            concurrent_marking_active: false,
            allocate_as_live: false,
            gc_full_heap: false,
            next_gc_full_heap: false,
            enqueued_at_last_quantum: 0,
        };
        plan
    }

    /// The buckets that the plan never uses.
    pub fn unused_buckets() -> (buckets: Vec<WorkBucketStage>)
        ensures
            buckets@ == seq![
                WorkBucketStage::VMRefForwarding,
                WorkBucketStage::CalculateForwarding,
                WorkBucketStage::SecondRoots,
                WorkBucketStage::RefForwarding,
                WorkBucketStage::FinalizableForwarding,
                WorkBucketStage::Compact,
            ],
    {
        let mut buckets: Vec<WorkBucketStage> = Vec::new();
        buckets.push(WorkBucketStage::VMRefForwarding);
        buckets.push(WorkBucketStage::CalculateForwarding);
        buckets.push(WorkBucketStage::SecondRoots);
        buckets.push(WorkBucketStage::RefForwarding);
        buckets.push(WorkBucketStage::FinalizableForwarding);
        buckets.push(WorkBucketStage::Compact);
        buckets
    }

    /// Where the plan's copies go.
    pub fn copy_selector(semantics: CopySemantics) -> (selector: CopySelector)
        ensures
            selector == match semantics {
                CopySemantics::PromoteToMature => CopySelector::ImmixHybrid { index: 0 },
                CopySemantics::Mature => CopySelector::ImmixHybrid { index: 0 },
                CopySemantics::Nursery => CopySelector::CopySpace { index: 0 },
                CopySemantics::DefaultCopy => CopySelector::Unused,
            },
    {
        match semantics {
            CopySemantics::PromoteToMature => CopySelector::ImmixHybrid { index: 0 },
            CopySemantics::Mature => CopySelector::ImmixHybrid { index: 0 },
            CopySemantics::Nursery => CopySelector::CopySpace { index: 0 },
            CopySemantics::DefaultCopy => CopySelector::Unused,
        }
    }

    /// Whether a marking cycle is in progress.
    pub fn concurrent_marking_in_progress(&self) -> (in_progress: bool)
        ensures
            in_progress == self@.concurrent_marking_active,
    {
        self.concurrent_marking_active
    }

    /// Whether a marking cycle is in progress.
    pub fn is_concurrent_marking_active(&self) -> (active: bool)
        ensures
            active == self@.concurrent_marking_active,
    {
        self.concurrent_marking_active
    }

    /// The pause before.
    pub fn previous_pause(&self) -> (pause: Option<Pause>)
        ensures
            pause == self@.previous_pause,
    {
        decode_pause(load_code(&self.previous_pause))
    }

    /// Starts or ends a marking cycle. While one is in progress, new objects count as live.
    fn set_concurrent_marking_state(&mut self, active: bool)
        ensures
            final(self)@ == (BactrianView {
                allocate_as_live: active,
                concurrent_marking_active: active,
                ..old(self)@
            }),
    {
        self.allocate_as_live = active;
        self.concurrent_marking_active = active;
    }

    /// Whether survivors of the nursery may stay young.
    pub fn aging_enabled(&self, env: &Environment) -> (enabled: bool)
        ensures
            enabled == (age_setting(*env) >= 1),
    {
        nursery_age(env) >= 1
    }

    /// Whether survivors of the nursery stay young in this pause.
    pub fn nursery_keeps_movable_survivors(&self) -> (keeps: bool)
        ensures
            keeps == self@.aging_this_gc,
    {
        self.aging_this_gc
    }

    /// Whether a major collection was asked for.
    pub fn major_request_pending(&self) -> (pending: bool)
        ensures
            pending == self@.next_gc_full_heap,
    {
        self.next_gc_full_heap
    }

    /// Takes the request for a major collection. Returns whether there was one.
    fn take_major_request(&mut self) -> (pending: bool)
        ensures
            pending == old(self)@.next_gc_full_heap,
            final(self)@ == (BactrianView { next_gc_full_heap: false, ..old(self)@ }),
    {
        let pending: bool = self.next_gc_full_heap;
        self.next_gc_full_heap = false;
        pending
    }

    /// Asks for a major collection.
    fn set_major_request(&mut self)
        ensures
            final(self)@ == (BactrianView { next_gc_full_heap: true, ..old(self)@ }),
    {
        self.next_gc_full_heap = true;
    }

    /// Asks for a major collection.
    pub fn force_full_heap_collection(&mut self)
        ensures
            final(self)@ == (BactrianView { next_gc_full_heap: true, ..old(self)@ }),
    {
        self.set_major_request();
    }

    /// Whether an allocation has failed for good. The second attempt may only be the first that
    /// follows a request for a major collection.
    fn genuine_allocation_emergency(inputs: &PauseInputs) -> (emergency: bool)
        ensures
            emergency == inputs.emergency(),
    {
        inputs.collection_attempts > 2
    }

    /// Whether a cycle that is asked for is made in one pause.
    fn is_cycle_pointless(&self, env: &Environment, inputs: &PauseInputs) -> (pointless: bool)
        requires
            sizes_fit(*env),
        ensures
            pointless == self@.cycle_pointless(*env, *inputs),
    {
        if env.is_set("BACTRIAN_NO_CONCURRENT") {
            return true;
        }
        if self.sliced_marking {
            let nursery_big: bool = inputs.max_nursery_pages > slice_max_nursery_pages(env);
            (nursery_big && !self.cycle_tick_origin) || inputs.hint_too_long
        } else {
            inputs.mature_pages < conc_mark_min_mature_pages(env)
        }
    }

    /// Chooses the next pause. Within a cycle, and while its sweep is not complete, only pauses
    /// that leave the mature space alone are possible.
    fn decide_pause(&mut self, env: &Environment, inputs: &PauseInputs) -> (pause: Pause)
        requires
            sizes_fit(*env),
        ensures
            pause == old(self)@.next_pause(*env, *inputs),
            final(self)@ == old(self)@.pause_chosen(*env, *inputs),
    {
        if self.concurrent_marking_in_progress() {
            if self.marking_queue_drained(inputs.bucket_drained) {
                return Pause::FinalMark;
            }
            return Pause::Nursery;
        }
        if self.sliced_marking && self.sweep_pending {
            return Pause::Nursery;
        }
        let cycle_requested: bool = self.take_major_request();
        let user_full: bool = inputs.user_triggered && (cycle_requested
            || inputs.full_heap_system_gc);
        let emergency: bool = Self::genuine_allocation_emergency(inputs);
        let full: bool = inputs.full_nursery_gc || user_full || emergency || inputs.vm_exhausted;
        let decision: Pause = if full {
            Pause::Full
        } else if cycle_requested {
            if self.is_cycle_pointless(env, inputs) {
                Pause::Full
            } else {
                Pause::InitialMark
            }
        } else {
            Pause::Nursery
        };
        assert(decision == old(self)@.wanted_pause(*env, *inputs));
        if decision != Pause::Nursery && self.compact_requested {
            self.compact_requested = false;
            self.immix_space.request_compact_all();
            return Pause::Full;
        }
        decision
    }

    /// Starts a pause: chooses it, and returns what is to be scheduled.
    pub fn schedule_collection(&mut self, env: &Environment, inputs: &PauseInputs) -> (schedule:
        BactrianSchedule)
        requires
            sizes_fit(*env),
        ensures
            schedule.pause == old(self)@.next_pause(*env, *inputs),
            schedule.full_heap == (schedule.pause == Pause::Full),
            !old(self)@.concurrent_marking_active && !(old(self)@.sliced_marking && old(
                self,
            )@.sweep_pending) && (inputs.full_nursery_gc || (inputs.user_triggered && (old(
                self,
            )@.next_gc_full_heap || inputs.full_heap_system_gc)) || inputs.collection_attempts > 2
                || inputs.vm_exhausted) ==> schedule.pause == Pause::Full,
            schedule.packets@ == mark_quantum(
                old(self)@,
                schedule.pause,
                inputs.emergency(),
            ) + sweep_quantum(old(self)@, schedule.pause, inputs.emergency()),
            final(self)@ == (BactrianView {
                current_pause: Some(schedule.pause),
                gc_full_heap: schedule.full_heap,
                ..old(self)@.pause_chosen(*env, *inputs)
            }),
    {
        let ghost v: BactrianView = self@;
        let pause: Pause = self.decide_pause(env, inputs);
        store_code(&mut self.current_pause, encode_pause(Some(pause)));
        self.gc_full_heap = pause == Pause::Full;
        let mut packets: Vec<(WorkBucketStage, BactrianPacket)> = Vec::new();
        if pause != Pause::Full && self.sliced_marking {
            let emergency: bool = Self::genuine_allocation_emergency(inputs);
            if pause == Pause::Nursery && self.concurrent_marking_in_progress() {
                packets.push(
                    (
                        WorkBucketStage::Release,
                        BactrianPacket::MarkQuantum { budgeted: !emergency },
                    ),
                );
            } else if pause == Pause::FinalMark {
                packets.push(
                    (WorkBucketStage::Closure, BactrianPacket::MarkQuantum { budgeted: false }),
                );
            }
            assert(packets@ =~= mark_quantum(v, pause, inputs.emergency()));
            if pause != Pause::FinalMark && self.sweep_pending {
                packets.push(
                    (
                        WorkBucketStage::Release,
                        BactrianPacket::SweepQuantum { budgeted: !emergency },
                    ),
                );
            }
        }
        assert(packets@ =~= mark_quantum(v, pause, inputs.emergency()) + sweep_quantum(
            v,
            pause,
            inputs.emergency(),
        ));
        BactrianSchedule { pause, full_heap: pause == Pause::Full, packets }
    }
}

/// The work that prepares a pause.
pub struct BactrianPrepareWork {
    /// The generational part is prepared.
    pub generational: bool,
    /// The common spaces are prepared for a collection of the whole heap.
    pub common_full: bool,
    /// The pause counts as a collection of the whole heap.
    pub counts_as_full: bool,
    /// The packets that prepare the mature space.
    pub mature: Option<PrepareWork>,
}

/// The work that releases a pause.
pub struct BactrianReleaseWork {
    /// The generational part is released.
    pub generational: bool,
    /// The common spaces are released after a collection of the whole heap.
    pub common_full: bool,
    /// The packets that sweep the mature space in this pause.
    pub sweep: Option<SweepTasks>,
    /// Further packets.
    pub packets: Vec<(WorkBucketStage, BactrianPacket)>,
}

impl Bactrian {
    /// Whether a collection is due. `generational` says so of the generational part. A pause for
    /// progress that was asked for is taken.
    pub fn collection_required(&mut self, bucket_drained: bool, generational: bool) -> (required:
        bool)
        ensures
            ({
                let v = old(self)@;
                let marked = v.concurrent_marking_active && v.drained(bucket_drained);
                let requested = !v.concurrent_marking_active && !v.sweep_pending
                    && v.next_gc_full_heap;
                &&& required == (marked || requested || v.progress_pause_requested || generational)
                &&& final(self)@ == (BactrianView {
                    progress_pause_requested: v.progress_pause_requested && (marked || requested),
                    ..v
                })
            }),
    {
        if self.concurrent_marking_in_progress() && self.marking_queue_drained(bucket_drained) {
            return true;
        }
        if !self.concurrent_marking_in_progress() && self.sweep_drained()
            && self.major_request_pending() {
            return true;
        }
        let progress: bool = self.progress_pause_requested;
        self.progress_pause_requested = false;
        if progress {
            return true;
        }
        generational
    }

    /// Whether the last collection reclaimed all that it could.
    pub fn last_collection_was_exhaustive(&self) -> (exhaustive: bool)
        ensures
            exhaustive == (self@.previous_pause == Some(Pause::Full) && (
            self@.s.space_args.never_move_objects || self@.last_gc_was_defrag)),
    {
        match self.previous_pause() {
            Some(Pause::Full) => self.immix_space.is_last_gc_exhaustive(self.last_gc_was_defrag),
            _ => false,
        }
    }

    /// Whether the last collection reclaimed the whole heap: in one pause, or as a cycle.
    pub fn last_collection_full_heap(&self) -> (full: bool)
        ensures
            full == (self@.previous_pause == Some(Pause::Full) || self@.previous_pause == Some(
                Pause::FinalMark,
            )),
    {
        match self.previous_pause() {
            Some(Pause::Full) => true,
            Some(Pause::FinalMark) => true,
            _ => false,
        }
    }

    /// Whether the current collection is one of the nursery.
    pub fn is_current_gc_nursery(&self) -> (nursery: bool)
        ensures
            nursery == !self@.gc_full_heap,
    {
        !self.gc_full_heap
    }

    /// Whether the current collection may move objects. Every one moves young objects.
    pub fn current_gc_may_move_object(&self) -> (may: bool)
        ensures
            may,
    {
        true
    }

    /// Whether the current pause may start, now that the mutators are stopped.
    pub fn notify_mutators_paused(&self) -> (may_start: bool)
        ensures
            may_start == self@.may_start(),
    {
        match self.current_pause() {
            Some(Pause::Full) => !self.concurrent_marking_in_progress(),
            Some(Pause::InitialMark) => !self.concurrent_marking_in_progress(),
            Some(Pause::FinalMark) => self.concurrent_marking_in_progress(),
            Some(Pause::Nursery) => true,
            None => false,
        }
    }

    /// The space of aged objects that is copied to.
    pub fn aged_to(&self) -> (space: SpaceKind)
        ensures
            space == (if self@.aged_hi {
                SpaceKind::Aged1
            } else {
                SpaceKind::Aged0
            }),
    {
        if self.aged_hi {
            SpaceKind::Aged1
        } else {
            SpaceKind::Aged0
        }
    }

    /// Prepares both spaces of aged objects to be emptied into the mature space.
    fn prepare_aged_all_from(&mut self)
        ensures
            final(self)@ == old(self)@.aged_all_from(),
    {
        self.aged0.prepare(true);
        self.aged1.prepare(true);
        self.aged0.set_copy_for_sft_trace(Some(CopySemantics::PromoteToMature));
        self.aged1.set_copy_for_sft_trace(Some(CopySemantics::PromoteToMature));
    }

    /// Exchanges the spaces of aged objects, and prepares them and the nursery.
    fn flip_aged(&mut self)
        ensures
            final(self)@ == old(self)@.aged_flipped(),
    {
        self.aged_hi = !self.aged_hi;
        let hi: bool = self.aged_hi;
        self.aged0.prepare(hi);
        self.aged1.prepare(!hi);
        self.nursery.set_copy_for_sft_trace(Some(CopySemantics::Nursery));
        if hi {
            self.aged0.set_copy_for_sft_trace(Some(CopySemantics::PromoteToMature));
            self.aged1.set_copy_for_sft_trace(None);
        } else {
            self.aged1.set_copy_for_sft_trace(Some(CopySemantics::PromoteToMature));
            self.aged0.set_copy_for_sft_trace(None);
        }
    }

    /// Prepares the nursery to be emptied into the mature space.
    fn prepare_nursery(&mut self)
        ensures
            final(self)@ == (BactrianView {
                nursery: old(self)@.nursery.prepared_for(
                    true,
                    Some(CopySemantics::PromoteToMature),
                ),
                ..old(self)@
            }),
    {
        self.nursery.prepare(true);
        self.nursery.set_copy_for_sft_trace(Some(CopySemantics::PromoteToMature));
    }

    /// Prepares a collection of the whole heap.
    fn prepare_full(
        &mut self,
        meta: &HeapMetadata,
        Ghost(env): Ghost<Environment>,
        spill_threshold: usize,
        clear_vo_bits: bool,
    ) -> (mature: PrepareWork)
        requires
            meta.wf(),
            old(self)@.wf(meta@),
            old(self)@.current_pause == Some(Pause::Full),
        ensures
            final(self)@ == old(self)@.prepared(env, spill_threshold),
            final(self)@.wf(meta@),
            prepares(
                mature,
                meta@,
                old(self)@.s,
                final(self)@.s,
                true,
                UnlogBitsOperation::BulkClear,
                clear_vo_bits,
            ),
    {
        let mature: PrepareWork = self.immix_space.prepare(
            meta,
            true,
            Some(spill_threshold),
            UnlogBitsOperation::BulkClear,
            clear_vo_bits,
        );
        self.aging_this_gc = false;
        self.prepare_aged_all_from();
        mature
    }

    /// Prepares the first pause of a cycle. The cycle starts here: what is promoted in this pause
    /// counts as live.
    fn prepare_initial_mark(
        &mut self,
        meta: &HeapMetadata,
        Ghost(env): Ghost<Environment>,
        spill_threshold: usize,
        clear_vo_bits: bool,
    ) -> (mature: PrepareWork)
        requires
            meta.wf(),
            old(self)@.wf(meta@),
            old(self)@.current_pause == Some(Pause::InitialMark),
        ensures
            final(self)@ == old(self)@.prepared(env, spill_threshold),
            final(self)@.wf(meta@),
            prepares(
                mature,
                meta@,
                old(self)@.s,
                final(self)@.s,
                true,
                UnlogBitsOperation::NoOp,
                clear_vo_bits,
            ),
    {
        self.prepare_nursery();
        let mature: PrepareWork = self.immix_space.prepare(
            meta,
            true,
            Some(spill_threshold),
            UnlogBitsOperation::NoOp,
            clear_vo_bits,
        );
        self.set_concurrent_marking_state(true);
        self.aging_this_gc = false;
        self.prepare_aged_all_from();
        mature
    }

    /// Prepares a pause of the nursery.
    fn prepare_minor(&mut self, env: &Environment, Ghost(spill_threshold): Ghost<usize>)
        requires
            old(self)@.current_pause == Some(Pause::Nursery),
        ensures
            final(self)@ == old(self)@.prepared(*env, spill_threshold),
    {
        let aging: bool = nursery_age(env) >= 1 && !self.concurrent_marking_in_progress();
        self.aging_this_gc = aging;
        if aging {
            self.flip_aged();
        } else {
            self.prepare_aged_all_from();
        }
    }

    /// Prepares the last pause of a cycle.
    fn prepare_final_mark(
        &mut self,
        Ghost(env): Ghost<Environment>,
        Ghost(spill_threshold): Ghost<usize>,
    )
        requires
            old(self)@.current_pause == Some(Pause::FinalMark),
        ensures
            final(self)@ == old(self)@.prepared(env, spill_threshold),
    {
        self.prepare_nursery();
        self.aging_this_gc = false;
        self.prepare_aged_all_from();
    }

    /// Prepares the current pause. `spill_threshold` is the number of holes that the
    /// defragmentation policy settled on, and `clear_vo_bits` says whether valid-object bits are
    /// cleared before a trace.
    pub fn prepare(
        &mut self,
        meta: &HeapMetadata,
        env: &Environment,
        spill_threshold: usize,
        clear_vo_bits: bool,
    ) -> (work: BactrianPrepareWork)
        requires
            meta.wf(),
            old(self)@.wf(meta@),
            old(self)@.current_pause is Some,
        ensures
            final(self)@ == old(self)@.prepared(*env, spill_threshold),
            final(self)@.wf(meta@),
            work.generational == (old(self)@.current_pause == Some(Pause::Full) || old(
                self,
            )@.current_pause == Some(Pause::Nursery)),
            work.common_full == (old(self)@.current_pause == Some(Pause::InitialMark)),
            work.counts_as_full == (old(self)@.current_pause == Some(Pause::InitialMark)),
            match work.mature {
                Some(mature) => prepares(
                    mature,
                    meta@,
                    old(self)@.s,
                    final(self)@.s,
                    true,
                    if old(self)@.current_pause == Some(Pause::Full) {
                        UnlogBitsOperation::BulkClear
                    } else {
                        UnlogBitsOperation::NoOp
                    },
                    clear_vo_bits,
                ),
                None => true,
            },
            work.mature is Some == (old(self)@.current_pause == Some(Pause::Full) || old(
                self,
            )@.current_pause == Some(Pause::InitialMark)),
    {
        match self.current_pause() {
            Some(Pause::Full) => {
                let mature: PrepareWork = self.prepare_full(
                    meta,
                    Ghost(*env),
                    spill_threshold,
                    clear_vo_bits,
                );
                BactrianPrepareWork {
                    generational: true,
                    common_full: false,
                    counts_as_full: false,
                    mature: Some(mature),
                }
            },
            Some(Pause::InitialMark) => {
                let mature: PrepareWork = self.prepare_initial_mark(
                    meta,
                    Ghost(*env),
                    spill_threshold,
                    clear_vo_bits,
                );
                BactrianPrepareWork {
                    generational: false,
                    common_full: true,
                    counts_as_full: true,
                    mature: Some(mature),
                }
            },
            Some(Pause::Nursery) => {
                self.prepare_minor(env, Ghost(spill_threshold));
                BactrianPrepareWork {
                    generational: true,
                    common_full: false,
                    counts_as_full: false,
                    mature: None,
                }
            },
            _ => {
                self.prepare_final_mark(Ghost(*env), Ghost(spill_threshold));
                BactrianPrepareWork {
                    generational: false,
                    common_full: false,
                    counts_as_full: false,
                    mature: None,
                }
            },
        }
    }
}

/// The packet that sweeps a parked chunk.
pub open spec fn sweep_of(chunk: usize) -> SweepChunk {
    SweepChunk { chunk: Chunk(Address(chunk)), unlog_bits_op: UnlogBitsOperation::NoOp }
}

impl BactrianView {
    /// Every parked chunk can be swept, and is parked once.
    #[verifier::opaque]
    pub open spec fn sweep_ready(self, m: MetadataView) -> bool {
        &&& self.s.wf(m)
        &&& self.sweep_counter == self.parked_sweep.len()
        &&& self.parked_sweep.no_duplicates()
        &&& forall|i: int|
            0 <= i < self.parked_sweep.len() ==> sweep_of(#[trigger] self.parked_sweep[i]).ready(
                m,
                self.s,
            )
    }

    /// The plan after a chunk that had been taken was swept.
    pub open spec fn taken_chunk_swept(self, m: MetadataView, chunk: usize) -> BactrianView {
        BactrianView {
            s: sweep_of(chunk).space_swept(self.s, m, true, self.sweep_counter),
            sweep_counter: (self.sweep_counter - 1) as usize,
            ..self
        }
    }

    /// The plan after the oldest parked chunk was taken and swept.
    pub open spec fn chunk_swept(self, m: MetadataView) -> BactrianView {
        BactrianView {
            parked_sweep: self.parked_sweep.drop_first(),
            ..self.taken_chunk_swept(m, self.parked_sweep[0])
        }
    }

    /// The tables after the oldest parked chunk was taken and swept.
    pub open spec fn chunk_swept_tables(self, m: MetadataView) -> MetadataView {
        sweep_of(self.parked_sweep[0]).swept(self.s, m, true)
    }

    /// The mature space is to be compacted: it has enough live blocks for the fraction to mean
    /// something, and enough of them are only partly taken.
    #[verifier::opaque]
    pub open spec fn fragmented(self, env: Environment) -> bool {
        &&& compact_threshold(env) > 0
        &&& self.s.swept_live_blocks >= MIN_LIVE_BLOCKS
        &&& self.s.reusable_blocks.count() * 100 >= self.s.swept_live_blocks
            * compact_threshold(env)
    }

    /// The plan after the last parked chunk was swept. Only the first time this is noticed
    /// something is done about it: new objects no longer count as live, and a fragmented mature
    /// space is to be compacted.
    pub open spec fn sweep_completed(self, env: Environment) -> BactrianView {
        BactrianView {
            sweep_pending: false,
            allocate_as_live: self.allocate_as_live && !self.sweep_pending,
            next_gc_full_heap: self.next_gc_full_heap || (self.sweep_pending && self.fragmented(
                env,
            )),
            ..self
        }
    }
}

impl BactrianView {
    /// The plan after it was noticed whether a chunk is still parked.
    pub open spec fn sweep_noticed(self, env: Environment) -> BactrianView {
        if self.parked_sweep.len() == 0 {
            self.sweep_completed(env)
        } else {
            self
        }
    }
}

/// How many live blocks the mature space must have before it is compacted for its fragmentation.
pub const MIN_LIVE_BLOCKS: usize = 64;

/// When the sweep of a cycle is complete, new objects no longer count as live, and the parts of
/// the state agree.
pub proof fn law_completed_sweep_ends_the_cycle(v: BactrianView, env: Environment)
    requires
        v.consistent(),
        v.sweep_pending,
        v.parked_sweep.len() == 0,
    ensures
        v.sweep_completed(env).consistent(),
        !v.sweep_completed(env).sweep_pending,
        !v.sweep_completed(env).allocate_as_live,
        v.current_pause != Some(Pause::FinalMark) ==> !v.sweep_completed(env).busy(),
{
}

/// There are no more chunks in a list than in the heap.
proof fn lemma_chunk_count(m: MetadataView, allocated: Seq<bool>, n: int)
    requires
        0 <= n,
    ensures
        chunks_set(m, allocated, n).len() <= n,
    decreases n,
{
    if n > 0 {
        lemma_chunk_count(m, allocated, n - 1);
    }
}

/// The chunks that the last pause of a cycle parks can all be swept, and each is parked once, if
/// no block of the mature space that is in use counts as free.
pub proof fn law_parked_chunks_can_be_swept(v: BactrianView, m: MetadataView)
    requires
        m.wf(),
        v.wf(m),
        v.sliced_marking,
        v.current_pause == Some(Pause::FinalMark),
        forall|chunk: usize|
            #![trigger sweep_of(chunk)]
            sweep_of(chunk).chunk.valid(m) ==> sweep_of(chunk).no_double_free(m, v.s),
    ensures
        v.after_release(m).sweep_ready(m),
{
    reveal(BactrianView::sweep_ready);
    reveal(SweepChunk::ready);
    let after = v.after_release(m);
    let chunks = space_chunks(m, v.s);
    lemma_chunk_count(m, v.s.chunk_map, m.chunks);
    law_chunks_set_lists_each_once(m, v.s.chunk_map, m.chunks);
    lemma_space_chunks(m, v.s.chunk_map, m.chunks);
    assert forall|i: int| 0 <= i < after.parked_sweep.len() implies sweep_of(
        #[trigger] after.parked_sweep[i],
    ).ready(m, after.s) by {
        let chunk = chunks[i];
        let packet = sweep_of(after.parked_sweep[i]);
        assert(packet.chunk == chunk);
        chunk.lemma_positions(m);
        assert(chunk_at(m, chunk.index(m)) == chunk);
        assert(chunks.contains(chunk));
        assert(packet.no_double_free(m, v.s));
        assert(packet.no_double_free(m, after.s)) by {
            assert forall|k: int|
                0 <= k < BLOCKS_IN_CHUNK && (#[trigger] chunk.block_at(k)).state(m)
                    != BlockState::Unallocated implies after.s.can_free(chunk.block_at(k)) by {
                assert(v.s.can_free(packet.chunk.block_at(k)));
            }
        }
    }
    assert forall|i: int, j: int|
        0 <= i < j < after.parked_sweep.len() implies after.parked_sweep[i]
        != after.parked_sweep[j] by {
        assert(chunks[i] != chunks[j]);
    }
}

/// The sweep of a parked chunk leaves the other parked chunks ready for theirs.
pub proof fn lemma_sweep_stays_ready(v: BactrianView, m: MetadataView)
    requires
        m.wf(),
        v.sweep_ready(m),
        v.parked_sweep.len() > 0,
        v.chunk_swept_tables(m).wf(),
    ensures
        v.chunk_swept(m).sweep_ready(v.chunk_swept_tables(m)),
{
    reveal(BactrianView::sweep_ready);
    reveal(SweepChunk::ready);
    let first = sweep_of(v.parked_sweep[0]);
    let m2 = v.chunk_swept_tables(m);
    let v2 = v.chunk_swept(m);
    first.law_sweep_keeps_the_space_fit(m, v.s, true, v.sweep_counter);
    assert forall|i: int| 0 <= i < v2.parked_sweep.len() implies sweep_of(
        #[trigger] v2.parked_sweep[i],
    ).ready(m2, v2.s) by {
        let other = sweep_of(v.parked_sweep[i + 1]);
        assert(v2.parked_sweep[i] == v.parked_sweep[i + 1]);
        assert(v.parked_sweep[0] != v.parked_sweep[i + 1]);
        first.law_sweep_spares_other_chunks(other, m, v.s, true, v.sweep_counter);
    }
    assert(v2.parked_sweep.no_duplicates()) by {
        assert forall|i: int, j: int|
            0 <= i < j < v2.parked_sweep.len() implies v2.parked_sweep[i]
            != v2.parked_sweep[j] by {
            assert(v.parked_sweep[i + 1] != v.parked_sweep[j + 1]);
        }
    }
}

impl Bactrian {
    /// Releases the spaces of aged objects that were emptied.
    fn release_aged(&mut self)
        ensures
            final(self)@ == old(self)@.aged_released(),
    {
        let spares: bool = match self.current_pause() {
            Some(Pause::Nursery) => self.aging_this_gc,
            _ => false,
        };
        if spares {
            if self.aged_hi {
                self.aged0.release();
            } else {
                self.aged1.release();
            }
        } else {
            self.aged0.release();
            self.aged1.release();
        }
    }

    /// Parks the chunks of packets that sweep them.
    fn park_sweep(&mut self, packets: &Vec<SweepChunk>)
        ensures
            final(self)@ == (BactrianView {
                parked_sweep: old(self)@.parked_sweep + packets@.map_values(
                    |packet: SweepChunk| packet.chunk.0.0,
                ),
                ..old(self)@
            }),
    {
        let ghost v: BactrianView = self@;
        let mut i: usize = 0;
        while i < packets.len()
            invariant
                i <= packets@.len(),
                self@ == (BactrianView {
                    parked_sweep: v.parked_sweep + packets@.subrange(0, i as int).map_values(
                        |packet: SweepChunk| packet.chunk.0.0,
                    ),
                    ..v
                }),
            decreases packets@.len() - i,
        {
            self.parked_sweep.push(packets[i].chunk.0.0);
            assert(packets@.subrange(0, i + 1) =~= packets@.subrange(0, i as int).push(
                packets@[i as int],
            ));
            i += 1;
            assert(self@.parked_sweep =~= v.parked_sweep + packets@.subrange(
                0,
                i as int,
            ).map_values(|packet: SweepChunk| packet.chunk.0.0));
        }
        assert(packets@.subrange(0, packets@.len() as int) =~= packets@);
    }

    /// Releases the last pause of a cycle. Where there are slices, the chunks to sweep are parked;
    /// otherwise the packets that sweep them are returned.
    fn release_final_mark(&mut self, meta: &HeapMetadata) -> (sweep: Option<SweepTasks>)
        requires
            meta.wf(),
            old(self)@.wf(meta@),
            old(self)@.current_pause == Some(Pause::FinalMark),
            old(self)@.sliced_marking ==> old(self)@.parked_sweep.len() == 0,
        ensures
            final(self)@ == old(self)@.after_release(meta@),
            final(self)@.wf(meta@),
            match sweep {
                Some(tasks) => !old(self)@.sliced_marking && sweeps(
                    tasks,
                    meta@,
                    old(self)@.s,
                    UnlogBitsOperation::NoOp,
                ),
                None => old(self)@.sliced_marking,
            },
    {
        let ghost v: BactrianView = self@;
        self.nursery.release();
        let sweep: Option<SweepTasks> = if self.sliced_marking {
            let tasks: SweepTasks = self.immix_space.release_deferred_sweep(
                meta,
                true,
                UnlogBitsOperation::NoOp,
            );
            self.park_sweep(&tasks.packets);
            assert(self@.parked_sweep =~= chunk_addresses(space_chunks(meta@, v.s)));
            self.sweep_epilogue = tasks.epilogue;
            self.sweep_pending = true;
            None
        } else {
            Some(self.immix_space.release(meta, true, UnlogBitsOperation::NoOp))
        };
        self.release_aged();
        sweep
    }

    /// Releases the current pause.
    pub fn release(&mut self, meta: &HeapMetadata) -> (work: BactrianReleaseWork)
        requires
            meta.wf(),
            old(self)@.wf(meta@),
            old(self)@.current_pause is Some,
            old(self)@.current_pause == Some(Pause::FinalMark) && old(self)@.sliced_marking ==> old(
                self,
            )@.parked_sweep.len() == 0,
        ensures
            final(self)@ == old(self)@.after_release(meta@),
            final(self)@.wf(meta@),
            work.generational == (old(self)@.current_pause != Some(Pause::FinalMark)),
            work.common_full == (old(self)@.current_pause == Some(Pause::FinalMark)),
            match work.sweep {
                Some(tasks) => sweeps(tasks, meta@, old(self)@.s, UnlogBitsOperation::NoOp),
                None => true,
            },
            work.sweep is Some == (old(self)@.current_pause == Some(Pause::Full) || (old(
                self,
            )@.current_pause == Some(Pause::FinalMark) && !old(self)@.sliced_marking)),
            work.packets@ == if old(self)@.current_pause == Some(Pause::FinalMark) && old(
                self,
            )@.sliced_marking {
                seq![(WorkBucketStage::Release, BactrianPacket::SweepQuantum { budgeted: true })]
            } else {
                Seq::empty()
            },
    {
        let ghost v: BactrianView = self@;
        let mut packets: Vec<(WorkBucketStage, BactrianPacket)> = Vec::new();
        match self.current_pause() {
            Some(Pause::Full) => {
                let tasks: SweepTasks = self.immix_space.release(
                    meta,
                    true,
                    UnlogBitsOperation::NoOp,
                );
                self.release_aged();
                assert(self@ =~= v.after_release(meta@));
                BactrianReleaseWork {
                    generational: true,
                    common_full: false,
                    sweep: Some(tasks),
                    packets,
                }
            },
            Some(Pause::FinalMark) => {
                let sweep: Option<SweepTasks> = self.release_final_mark(meta);
                if self.sliced_marking {
                    packets.push(
                        (WorkBucketStage::Release, BactrianPacket::SweepQuantum { budgeted: true }),
                    );
                }
                BactrianReleaseWork { generational: false, common_full: true, sweep, packets }
            },
            _ => {
                self.release_aged();
                BactrianReleaseWork {
                    generational: true,
                    common_full: false,
                    sweep: None,
                    packets,
                }
            },
        }
    }

    /// Ends the current pause for the mature space.
    fn end_mature(&mut self)
        ensures
            final(self)@ == (BactrianView {
                s: old(self)@.s.collection_ended(),
                last_gc_was_defrag: old(self)@.s.defrag.in_defrag,
                ..old(self)@
            }),
    {
        let did_defrag: bool = self.immix_space.end_of_gc();
        self.last_gc_was_defrag = did_defrag;
    }

    /// Ends the marking of a cycle. New objects go on to count as live while the sweep of the
    /// cycle is not complete.
    fn end_marking(&mut self)
        ensures
            final(self)@ == (BactrianView {
                concurrent_marking_active: false,
                allocate_as_live: old(self)@.allocate_as_live && old(self)@.sliced_marking && old(
                    self,
                )@.sweep_pending,
                ..old(self)@
            }),
    {
        self.concurrent_marking_active = false;
        if !(self.sliced_marking && self.sweep_pending) {
            self.allocate_as_live = false;
        }
    }

    /// Ends the current pause. `next_gc_full_heap` is the request for a major collection that the
    /// generational part leaves.
    pub fn end_of_gc(&mut self, next_gc_full_heap: bool)
        requires
            old(self)@.current_pause is Some,
        ensures
            final(self)@ == old(self)@.ended(next_gc_full_heap),
    {
        let pause: Option<Pause> = self.current_pause();
        self.next_gc_full_heap = next_gc_full_heap;
        self.end_mature();
        if let Some(Pause::FinalMark) = pause {
            self.end_marking();
        }
        store_code(&mut self.previous_pause, encode_pause(pause));
        store_code(&mut self.current_pause, encode_pause(None));
    }

    /// Takes the oldest parked chunk.
    pub fn pop_sweep_packet(&mut self) -> (taken: Taken<usize>)
        ensures
            taken is Empty <==> old(self)@.parked_sweep.len() == 0,
            taken matches Taken::Packet(chunk) ==> chunk == old(self)@.parked_sweep[0],
            final(self)@ == (BactrianView {
                parked_sweep: if taken is Packet {
                    old(self)@.parked_sweep.drop_first()
                } else {
                    old(self)@.parked_sweep
                },
                ..old(self)@
            }),
    {
        self.parked_sweep.pop()
    }

    /// Sweeps a chunk that was taken.
    pub fn run_sweep_packet(&mut self, meta: &mut HeapMetadata, chunk: usize)
        requires
            old(meta).wf(),
            old(self)@.s.wf(old(meta)@),
            old(self)@.sweep_counter > 0,
            sweep_of(chunk).ready(old(meta)@, old(self)@.s),
        ensures
            final(meta).wf(),
            final(self)@ == old(self)@.taken_chunk_swept(old(meta)@, chunk),
            final(meta)@ == sweep_of(chunk).swept(old(self)@.s, old(meta)@, true),
    {
        let packet: SweepChunk = SweepChunk {
            chunk: Chunk(Address(chunk)),
            unlog_bits_op: UnlogBitsOperation::NoOp,
        };
        proof {
            reveal(SweepChunk::ready);
            assert(packet == sweep_of(chunk));
        }
        packet.do_work(meta, &mut self.immix_space, true, &mut self.sweep_epilogue);
    }

    /// How many chunks are parked for their sweep.
    pub fn sweep_packets_remaining(&self) -> (remaining: usize)
        ensures
            remaining == self@.parked_sweep.len(),
    {
        self.parked_sweep.len()
    }

    /// Whether no chunk is parked for its sweep.
    pub fn sweep_queue_is_empty(&self) -> (empty: bool)
        ensures
            empty == (self@.parked_sweep.len() == 0),
    {
        self.parked_sweep.is_empty()
    }

    /// Whether the mature space is to be compacted for its fragmentation.
    fn is_fragmented(&self, env: &Environment) -> (fragmented: bool)
        ensures
            fragmented == self@.fragmented(*env),
    {
        proof {
            reveal(BactrianView::fragmented);
        }
        let threshold: usize = compact_util_threshold_pct(env);
        if threshold == 0 {
            return false;
        }
        let counts: (usize, usize) = self.immix_space.post_sweep_fragmentation();
        proof {
            assert(counts.1 as u128 * threshold as u128 <= 0xffff_ffff_ffff_ffff * 100)
                by (nonlinear_arith)
                requires
                    counts.1 as u128 <= 0xffff_ffff_ffff_ffff,
                    threshold as u128 <= 100,
            ;
        }
        counts.1 >= MIN_LIVE_BLOCKS && counts.0 as u128 * 100 >= counts.1 as u128
            * threshold as u128
    }

    /// Takes note that no chunk is parked for its sweep any more.
    pub fn sweep_queue_emptied(&mut self, env: &Environment)
        ensures
            final(self)@ == old(self)@.sweep_completed(*env),
    {
        if !self.sweep_pending {
            return;
        }
        let fragmented: bool = self.is_fragmented(env);
        self.sweep_pending = false;
        self.allocate_as_live = false;
        self.next_gc_full_heap = self.next_gc_full_heap || fragmented;
    }

    /// Takes the oldest parked marking packet.
    pub fn pop_marking_packet(&mut self) -> (taken: Taken<(bool, Vec<usize>)>)
        ensures
            taken is Empty <==> old(self)@.parked_marking.len() == 0,
            taken matches Taken::Packet(packet) ==> (packet.0, packet.1@) == old(
                self,
            )@.parked_marking[0],
            final(self)@ == (BactrianView {
                parked_marking: if taken is Packet {
                    old(self)@.parked_marking.drop_first()
                } else {
                    old(self)@.parked_marking
                },
                ..old(self)@
            }),
    {
        self.parked_marking.pop()
    }

    /// The runtime's layout of metadata.
    pub fn vm(&self) -> (vm: VmConfig)
        ensures
            vm == self@.s.vm,
    {
        self.immix_space.vm
    }

    /// Whether objects are copied out of a space in the current pause.
    pub fn is_emptied(&self, space: SpaceKind) -> (result: bool)
        ensures
            result == self@.emptied(space),
    {
        match space {
            SpaceKind::Nursery => true,
            SpaceKind::Aged0 => self.aged0.from_space,
            SpaceKind::Aged1 => self.aged1.from_space,
            _ => false,
        }
    }

    /// Traces an object of the large-object space, or of another common space.
    pub fn trace_common(&mut self, queue: &mut Vec<ObjectReference>, object: ObjectReference)
        ensures
            final(self)@ == (BactrianView {
                common: old(self)@.common.traced(object),
                ..old(self)@
            }),
            final(queue)@ == old(self)@.common.queue_traced(old(queue)@, object),
    {
        self.common.trace_object(queue, object);
    }

    /// Marks an object of the mature space where it is. One that was not marked before is queued
    /// for its fields to be scanned.
    pub fn trace_mature(
        &mut self,
        meta: &mut HeapMetadata,
        objects: &ObjectModel,
        queue: &mut Vec<ObjectReference>,
        object: ObjectReference,
    )
        requires
            old(meta).wf(),
            old(meta)@.in_heap(object.addr()),
        ensures
            final(meta).wf(),
            final(self)@ == (BactrianView { s: final(self)@.s, ..old(self)@ }),
            traced_in_place(
                old(self)@.s,
                final(self)@.s,
                old(meta)@,
                final(meta)@,
                old(queue)@,
                final(queue)@,
                object,
                objects.size(object.0.0),
            ),
    {
        let _result: ObjectReference = self.immix_space.trace_object_without_moving(
            meta,
            objects,
            queue,
            object,
        );
    }

    /// Marks a copy in the mature space, and makes it unlogged.
    pub fn post_copy_mature(&self, meta: &mut HeapMetadata, object: ObjectReference)
        requires
            old(meta).wf(),
            old(meta)@.in_heap(object.addr()),
        ensures
            final(meta).wf(),
            final(meta)@ == self@.s.copied_to(old(meta)@, object.addr()),
    {
        self.immix_space.post_copy(meta, object);
    }

    /// Marks the lines of an object of the mature space when its fields are scanned.
    pub fn post_scan_object(
        &self,
        meta: &mut HeapMetadata,
        objects: &ObjectModel,
        object: ObjectReference,
    )
        requires
            old(meta).wf(),
            old(meta)@.in_heap(object.addr()),
            object.addr() + objects.size(object.0.0) <= old(meta)@.end(),
        ensures
            final(meta).wf(),
            final(meta)@ == scanned(self@.s, old(meta)@, object, objects.size(object.0.0)),
    {
        if let SpaceKind::Immix = meta.space_of(object.0) {
            self.immix_space.post_scan_object(meta, objects, object);
        }
    }

    /// Sets whether traces mark the large objects of all ages. Returns what was set before.
    pub fn set_marking_full_semantics(&mut self, full: bool) -> (was_full: bool)
        ensures
            was_full == old(self)@.common.full_semantics,
            final(self)@ == (BactrianView {
                common: CommonView { full_semantics: full, ..old(self)@.common },
                ..old(self)@
            }),
    {
        self.common.set_marking_full_semantics(full)
    }

    /// What had been handed to marking packets when the last quantum ended.
    pub fn enqueued_at_last_quantum(&self) -> (enqueued: usize)
        ensures
            enqueued == self@.enqueued_at_last_quantum,
    {
        self.enqueued_at_last_quantum
    }

    /// How long a slice would have to mark, in nanoseconds.
    pub fn mark_quantum_hint_nanos(&self) -> (nanos: u64)
        ensures
            nanos == self@.mark_quantum_hint_nanos,
    {
        self.mark_quantum_hint_nanos
    }

    /// Takes note of what has been handed to marking packets when a quantum ends.
    pub fn set_enqueued_at_last_quantum(&mut self, enqueued: usize)
        ensures
            final(self)@ == (BactrianView { enqueued_at_last_quantum: enqueued, ..old(self)@ }),
    {
        self.enqueued_at_last_quantum = enqueued;
    }

    /// The pages that a collection may need, apart from those in use: what the generational part
    /// counts, what is aged, and the room for defragmentation.
    pub fn get_collection_reserved_pages(
        &self,
        generational: usize,
        aged0: usize,
        aged1: usize,
        defrag_headroom: usize,
    ) -> (pages: usize)
        requires
            generational + aged0 + aged1 + defrag_headroom <= usize::MAX,
        ensures
            pages == generational + aged0 + aged1 + defrag_headroom,
    {
        generational + aged0 + aged1 + defrag_headroom
    }

    /// The pages in use.
    pub fn get_used_pages(&self, generational: usize, aged0: usize, aged1: usize, mature: usize) -> (pages:
        usize)
        requires
            generational + aged0 + aged1 + mature <= usize::MAX,
        ensures
            pages == generational + aged0 + aged1 + mature,
    {
        generational + aged0 + aged1 + mature
    }

    /// The pages that can still be allocated: half of what is not reserved, since the other half
    /// must take the copies.
    pub fn get_available_pages(&self, total: usize, reserved: usize) -> (pages: usize)
        ensures
            pages == (if total > reserved {
                (total - reserved) / 2
            } else {
                0
            }),
    {
        if total > reserved {
            (total - reserved) / 2
        } else {
            0
        }
    }

    /// The pages of mature objects: those of the mature space, of the non-moving space, and of
    /// large objects.
    pub fn get_mature_reserved_pages(&self, mature: usize, nonmoving: usize, large: usize) -> (pages:
        usize)
        requires
            mature + nonmoving + large <= usize::MAX,
        ensures
            pages == mature + nonmoving + large,
    {
        mature + nonmoving + large
    }

    /// Whether an object is young.
    pub fn is_object_in_nursery(&self, meta: &HeapMetadata, object: ObjectReference) -> (young: bool)
        requires
            meta.wf(),
        ensures
            young == self@.young(meta@, object.0.0),
    {
        match meta.space_of(object.0) {
            SpaceKind::Nursery => true,
            SpaceKind::Aged0 => true,
            SpaceKind::Aged1 => true,
            SpaceKind::LargeObject => self.common.is_in_nursery(object),
            _ => false,
        }
    }

    /// Whether an address is in a space that holds young objects only.
    pub fn is_address_in_nursery(&self, meta: &HeapMetadata, address: Address) -> (young: bool)
        requires
            meta.wf(),
        ensures
            young == copied_young(meta@.space_of(address.0 as int)),
    {
        match meta.space_of(address) {
            SpaceKind::Nursery => true,
            SpaceKind::Aged0 => true,
            SpaceKind::Aged1 => true,
            _ => false,
        }
    }
}

impl ConcurrentPlan for Bactrian {
    open spec fn in_progress(&self) -> bool {
        self@.concurrent_marking_active
    }

    open spec fn pause(&self) -> Option<Pause> {
        self@.current_pause
    }

    fn concurrent_work_in_progress(&self) -> (in_progress: bool) {
        self.concurrent_marking_in_progress()
    }

    fn current_pause(&self) -> (pause: Option<Pause>) {
        decode_pause(load_code(&self.current_pause))
    }

    fn marking_queue_drained(&self, bucket_drained: bool) -> (drained: bool)
        ensures
            drained == self@.drained(bucket_drained),
    {
        if self.sliced_marking {
            self.parked_marking.is_empty()
        } else {
            bucket_drained
        }
    }

    fn sweep_drained(&self) -> (drained: bool)
        ensures
            drained == !self@.sweep_pending,
    {
        !self.sweep_pending
    }

    fn should_skip_concurrent_trace(&self, meta: &HeapMetadata, object: ObjectReference) -> (skip:
        bool)
        ensures
            skip == self@.young(meta@, object.0.0),
    {
        self.is_object_in_nursery(meta, object)
    }

    fn schedule_marking_packet(&mut self, from_barrier: bool, objects: Vec<usize>) -> (returned:
        Option<(bool, Vec<usize>)>)
        ensures
            old(self)@.sliced_marking ==> returned is None && final(self)@ == (BactrianView {
                parked_marking: old(self)@.parked_marking.push((from_barrier, objects@)),
                ..old(self)@
            }),
            !old(self)@.sliced_marking ==> final(self)@ == old(self)@ && returned == Some(
                (from_barrier, objects),
            ),
    {
        if self.sliced_marking {
            self.parked_marking.push(from_barrier, objects);
            None
        } else {
            Some((from_barrier, objects))
        }
    }

    fn marking_confined_to_pauses(&self) -> (confined: bool)
        ensures
            confined == self@.sliced_marking,
    {
        self.sliced_marking
    }

    fn previous_pause_finished_mark(&self) -> (finished: bool)
        ensures
            finished == (self@.previous_pause == Some(Pause::FinalMark) || self@.previous_pause
                == Some(Pause::Full)),
    {
        match self.previous_pause() {
            Some(Pause::FinalMark) => true,
            Some(Pause::Full) => true,
            _ => false,
        }
    }

    fn request_progress_pause(&mut self)
        ensures
            final(self)@ == (BactrianView {
                progress_pause_requested: old(self)@.progress_pause_requested || old(
                    self,
                )@.concurrent_marking_active || old(self)@.sweep_pending,
                ..old(self)@
            }),
    {
        if self.concurrent_marking_in_progress() || self.sweep_pending {
            self.progress_pause_requested = true;
        }
    }

    fn mature_footprint_and_live(&self, reserved_pages: usize) -> (bytes: Option<(usize, usize)>)
        ensures
            bytes == Some(((reserved_pages * BYTES_IN_PAGE) as usize, self@.s.major_live_bytes)),
    {
        Some((reserved_pages * BYTES_IN_PAGE, self.immix_space.major_live_bytes()))
    }

    fn request_mature_compaction(&mut self)
        ensures
            final(self)@ == (BactrianView { compact_requested: true, ..old(self)@ }),
    {
        self.compact_requested = true;
    }

    fn set_mark_quantum_hint(&mut self, nanos: u64, tick_origin: bool)
        ensures
            final(self)@ == (BactrianView {
                mark_quantum_hint_nanos: nanos,
                cycle_tick_origin: tick_origin,
                ..old(self)@
            }),
    {
        self.mark_quantum_hint_nanos = nanos;
        self.cycle_tick_origin = tick_origin;
    }

    fn previous_pause_started_cycle(&self) -> (started: bool)
        ensures
            started == (self@.previous_pause == Some(Pause::InitialMark) || self@.previous_pause
                == Some(Pause::Full)),
    {
        match self.previous_pause() {
            Some(Pause::InitialMark) => true,
            Some(Pause::Full) => true,
            _ => false,
        }
    }
}

} // verus!
