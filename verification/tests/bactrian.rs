use mmtk::args::Environment;
use mmtk::plan::concurrent::bactrian::barrier::{BactrianBarrier, MemorySlice};
use mmtk::plan::concurrent::bactrian::gc_work::{
    mark_escalates, mark_quota, sweep_escalates, sweep_expired, sweep_quota, BactrianMarkQuantum,
    BactrianSweepQuantum, MarkEnding, MarkHistory, MarkWorker, QuotaInputs, SweepEnding, SweepRun,
};
use mmtk::plan::concurrent::bactrian::global::{Bactrian, BactrianPacket, PauseInputs};
use mmtk::plan::concurrent::bactrian::mutator::{
    allocator_for, bactrian_mutator_prepare, bactrian_mutator_release, create_bactrian_mutator,
    reserved_allocators, space_mapping, AllocationSemantics, AllocatorSelector, BumpAllocator,
    ReservedAllocators,
};
use mmtk::plan::concurrent::bactrian::trace::{
    BactrianNurseryProcessEdges, BactrianOldifyOps, CopyTargets, SEED_CAPACITY,
};
use mmtk::plan::concurrent::global::ConcurrentPlan;
use mmtk::plan::concurrent::{decode_pause, encode_pause, Pause};
use mmtk::plan::constraints::{BarrierSelector, CopySelector, CopySemantics};
use mmtk::policy::immix::block::{Block, BlockState};
use mmtk::policy::immix::line::Line;
use mmtk::scheduler::WorkBucketStage;
use mmtk::util::address::{Address, ObjectReference};
use mmtk::util::deque::Taken;
use mmtk::util::metadata::{HeapMetadata, SpaceKind};
use mmtk::util::vm::{MetadataLocation, ObjectModel, Slot, VmConfig};
use std::collections::HashSet;

const START: usize = 0x4000_0000;
const CHUNK: usize = 4194304;

fn vm() -> VmConfig {
    VmConfig {
        header_forwarding_sentinel: false,
        heap_start: START,
        forwarding_pointer: MetadataLocation::InHeader { bit_offset: 0 },
        forwarding_bits: MetadataLocation::OnSide,
        mark_bit: MetadataLocation::OnSide,
        pinning_bit: None,
        single_tracer: false,
    }
}

fn env(vars: &[(&str, &str)]) -> Environment {
    Environment {
        vars: vars
            .iter()
            .map(|(name, value)| (name.to_string(), Some(value.to_string())))
            .collect(),
    }
}

/// A chunk for each of the mature space, the nursery, the two spaces of aged objects and the
/// large objects, and a second one for the mature space.
fn heap() -> HeapMetadata {
    let mut meta = HeapMetadata::new(Address(START), 6);
    meta.set_space(0, SpaceKind::Immix);
    meta.set_space(1, SpaceKind::Nursery);
    meta.set_space(2, SpaceKind::Aged0);
    meta.set_space(3, SpaceKind::Aged1);
    meta.set_space(4, SpaceKind::LargeObject);
    meta.set_space(5, SpaceKind::Immix);
    meta
}

fn plan(e: &Environment) -> Bactrian {
    Bactrian::new(e, vm(), 6, 2, false, false, true)
}

fn inputs() -> PauseInputs {
    PauseInputs {
        bucket_drained: false,
        user_triggered: false,
        full_heap_system_gc: false,
        collection_attempts: 1,
        vm_exhausted: false,
        full_nursery_gc: false,
        max_nursery_pages: 256,
        hint_too_long: false,
        mature_pages: 1 << 20,
    }
}

fn mature(offset: usize) -> ObjectReference {
    ObjectReference(Address(START + offset))
}

fn nursery(offset: usize) -> ObjectReference {
    ObjectReference(Address(START + CHUNK + offset))
}

fn aged0(offset: usize) -> ObjectReference {
    ObjectReference(Address(START + 2 * CHUNK + offset))
}

fn aged1(offset: usize) -> ObjectReference {
    ObjectReference(Address(START + 3 * CHUNK + offset))
}

fn large(offset: usize) -> ObjectReference {
    ObjectReference(Address(START + 4 * CHUNK + offset))
}

/// Makes the next pause, without any tracing in it.
fn pause(bactrian: &mut Bactrian, meta: &HeapMetadata, e: &Environment, i: &PauseInputs) -> Pause {
    let schedule = bactrian.schedule_collection(e, i);
    bactrian.prepare(meta, e, 8, false);
    bactrian.release(meta);
    bactrian.end_of_gc(false);
    schedule.pause
}

/// A plan in the middle of a cycle.
fn marking(e: &Environment) -> Bactrian {
    let mut bactrian = plan(e);
    let meta = heap();
    bactrian.force_full_heap_collection();
    assert_eq!(pause(&mut bactrian, &meta, e, &inputs()), Pause::InitialMark);
    assert!(bactrian.concurrent_marking_in_progress());
    bactrian
}

#[test]
fn pauses_have_codes() {
    for p in [
        None,
        Some(Pause::Full),
        Some(Pause::InitialMark),
        Some(Pause::FinalMark),
        Some(Pause::Nursery),
    ] {
        assert_eq!(decode_pause(encode_pause(p)), p);
    }
    assert_eq!(encode_pause(Some(Pause::FinalMark)), 3);
    assert_eq!(decode_pause(9), None);
    assert_eq!(Pause::default(), Pause::Full);
}

#[test]
fn an_idle_plan_collects_the_nursery() {
    let e = env(&[]);
    let mut bactrian = plan(&e);
    let schedule = bactrian.schedule_collection(&e, &inputs());
    assert_eq!(schedule.pause, Pause::Nursery);
    assert!(!schedule.full_heap);
    assert!(schedule.packets.is_empty());
    assert_eq!(bactrian.current_pause(), Some(Pause::Nursery));
    assert!(bactrian.is_current_gc_nursery());
    assert!(bactrian.current_gc_may_move_object());
    assert!(!bactrian.current_pause_finishes_mark());
    assert!(bactrian.notify_mutators_paused());
}

#[test]
fn some_inputs_need_the_whole_heap() {
    let e = env(&[]);
    for i in [
        PauseInputs { collection_attempts: 3, ..inputs() },
        PauseInputs { vm_exhausted: true, ..inputs() },
        PauseInputs { full_nursery_gc: true, ..inputs() },
        PauseInputs { user_triggered: true, full_heap_system_gc: true, ..inputs() },
    ] {
        let mut bactrian = plan(&e);
        let schedule = bactrian.schedule_collection(&e, &i);
        assert_eq!(schedule.pause, Pause::Full);
        assert!(schedule.full_heap);
        assert!(bactrian.current_pause_finishes_mark());
        assert!(!bactrian.last_collection_full_heap());
        let meta = heap();
        bactrian.prepare(&meta, &e, 8, false);
        bactrian.release(&meta);
        bactrian.end_of_gc(false);
        assert!(bactrian.last_collection_full_heap());
    }
    for i in [
        PauseInputs { collection_attempts: 2, ..inputs() },
        PauseInputs { user_triggered: true, ..inputs() },
        PauseInputs { full_heap_system_gc: true, ..inputs() },
    ] {
        let mut bactrian = plan(&e);
        assert_eq!(bactrian.schedule_collection(&e, &i).pause, Pause::Nursery);
    }
}

#[test]
fn a_request_starts_a_cycle() {
    let e = env(&[]);
    let mut bactrian = plan(&e);
    bactrian.force_full_heap_collection();
    assert!(bactrian.major_request_pending());
    assert!(bactrian.collection_required(false, false));
    let schedule = bactrian.schedule_collection(&e, &inputs());
    assert_eq!(schedule.pause, Pause::InitialMark);
    assert!(!bactrian.major_request_pending());
}

#[test]
fn a_cycle_may_not_pay() {
    let cases: [(&[(&str, &str)], PauseInputs); 4] = [
        (&[("BACTRIAN_NO_CONCURRENT", "1")], inputs()),
        (&[], PauseInputs { max_nursery_pages: 1025, ..inputs() }),
        (&[], PauseInputs { hint_too_long: true, ..inputs() }),
        (&[("MMTK_MARK_SLICED", "0")], PauseInputs { mature_pages: 65535, ..inputs() }),
    ];
    for (vars, i) in cases {
        let e = env(vars);
        let mut bactrian = plan(&e);
        bactrian.force_full_heap_collection();
        assert_eq!(bactrian.schedule_collection(&e, &i).pause, Pause::Full);
    }
    let e = env(&[("MMTK_MARK_SLICED", "0")]);
    let mut bactrian = plan(&e);
    bactrian.force_full_heap_collection();
    let i = PauseInputs { mature_pages: 65536, ..inputs() };
    assert_eq!(bactrian.schedule_collection(&e, &i).pause, Pause::InitialMark);
    let e = env(&[]);
    let mut bactrian = plan(&e);
    bactrian.set_mark_quantum_hint(7, true);
    assert_eq!(bactrian.mark_quantum_hint_nanos(), 7);
    bactrian.force_full_heap_collection();
    let i = PauseInputs { max_nursery_pages: 1025, ..inputs() };
    assert_eq!(bactrian.schedule_collection(&e, &i).pause, Pause::InitialMark);
}

#[test]
fn a_cycle_ends_when_its_packets_are_done() {
    let e = env(&[]);
    let meta = heap();
    let mut bactrian = marking(&e);
    assert!(bactrian.previous_pause_started_cycle());
    assert_eq!(bactrian.schedule_marking_packet(false, vec![START + 64]), None);
    assert!(!bactrian.marking_queue_drained(true));
    assert!(!bactrian.collection_required(true, false));

    let schedule = bactrian.schedule_collection(&e, &inputs());
    assert_eq!(schedule.pause, Pause::Nursery);
    assert_eq!(
        schedule.packets,
        vec![(WorkBucketStage::Release, BactrianPacket::MarkQuantum { budgeted: true })]
    );
    bactrian.prepare(&meta, &e, 8, false);
    bactrian.release(&meta);
    bactrian.end_of_gc(false);

    match bactrian.pop_marking_packet() {
        Taken::Packet((false, objects)) => assert_eq!(objects, vec![START + 64]),
        _ => panic!("the packet is gone"),
    }
    assert!(matches!(bactrian.pop_marking_packet(), Taken::Empty));
    assert!(bactrian.marking_queue_drained(false));
    assert!(bactrian.collection_required(false, false));

    let schedule = bactrian.schedule_collection(&e, &inputs());
    assert_eq!(schedule.pause, Pause::FinalMark);
    assert_eq!(
        schedule.packets,
        vec![(WorkBucketStage::Closure, BactrianPacket::MarkQuantum { budgeted: false })]
    );
    assert!(bactrian.current_pause_finishes_mark());
    bactrian.prepare(&meta, &e, 8, false);
    let work = bactrian.release(&meta);
    assert!(work.common_full);
    assert!(!work.generational);
    assert!(work.sweep.is_none());
    assert_eq!(
        work.packets,
        vec![(WorkBucketStage::Release, BactrianPacket::SweepQuantum { budgeted: true })]
    );
    bactrian.end_of_gc(false);
    assert!(!bactrian.concurrent_marking_in_progress());
    assert!(!bactrian.sweep_drained());
    assert!(bactrian.previous_pause_finished_mark());
    assert_eq!(bactrian.previous_pause(), Some(Pause::FinalMark));
}

#[test]
fn parked_packets_come_back_in_order() {
    let e = env(&[]);
    let mut bactrian = marking(&e);
    for n in 0..100 {
        bactrian.schedule_marking_packet(n % 3 == 0, vec![n, n + 1]);
    }
    for n in 0..100 {
        match bactrian.pop_marking_packet() {
            Taken::Packet((from_barrier, objects)) => {
                assert_eq!(from_barrier, n % 3 == 0);
                assert_eq!(objects, vec![n, n + 1]);
            }
            _ => panic!("packet {} is gone", n),
        }
    }
    assert!(matches!(bactrian.pop_marking_packet(), Taken::Empty));
}

#[test]
fn without_slices_packets_go_to_the_bucket() {
    let e = env(&[("MMTK_MARK_SLICED", "0")]);
    let mut bactrian = marking(&e);
    assert!(!bactrian.marking_confined_to_pauses());
    assert_eq!(bactrian.schedule_marking_packet(true, vec![8]), Some((true, vec![8])));
    assert!(!bactrian.marking_queue_drained(false));
    assert!(bactrian.marking_queue_drained(true));
    let i = PauseInputs { bucket_drained: true, ..inputs() };
    let schedule = bactrian.schedule_collection(&e, &i);
    assert_eq!(schedule.pause, Pause::FinalMark);
    assert!(schedule.packets.is_empty());
    let meta = heap();
    bactrian.prepare(&meta, &e, 8, false);
    let work = bactrian.release(&meta);
    assert!(work.sweep.is_some());
    assert!(work.packets.is_empty());
    bactrian.end_of_gc(false);
    assert!(bactrian.sweep_drained());
}

#[test]
fn an_emergency_takes_the_budget_away() {
    let e = env(&[]);
    let mut bactrian = marking(&e);
    bactrian.schedule_marking_packet(false, vec![8]);
    let i = PauseInputs { collection_attempts: 5, ..inputs() };
    let schedule = bactrian.schedule_collection(&e, &i);
    assert_eq!(schedule.pause, Pause::Nursery);
    assert_eq!(
        schedule.packets,
        vec![(WorkBucketStage::Release, BactrianPacket::MarkQuantum { budgeted: false })]
    );
}

#[test]
fn requests_wait_for_the_cycle() {
    let e = env(&[]);
    let mut bactrian = marking(&e);
    bactrian.schedule_marking_packet(false, vec![8]);
    bactrian.force_full_heap_collection();
    bactrian.request_mature_compaction();
    let i = PauseInputs { vm_exhausted: true, ..inputs() };
    assert_eq!(bactrian.schedule_collection(&e, &i).pause, Pause::Nursery);
    assert!(bactrian.major_request_pending());
    assert!(!bactrian.collection_required(false, false));
}

#[test]
fn a_compaction_is_made_in_one_pause() {
    let e = env(&[]);
    let meta = heap();
    let mut bactrian = plan(&e);
    bactrian.request_mature_compaction();
    assert_eq!(pause(&mut bactrian, &meta, &e, &inputs()), Pause::Nursery);
    bactrian.force_full_heap_collection();
    assert_eq!(bactrian.schedule_collection(&e, &inputs()).pause, Pause::Full);
    assert!(bactrian.immix_space.defrag.compact_all);
}

#[test]
fn progress_is_asked_for_during_a_cycle_only() {
    let e = env(&[]);
    let mut idle = plan(&e);
    idle.request_progress_pause();
    assert!(!idle.collection_required(false, false));
    let mut bactrian = marking(&e);
    bactrian.schedule_marking_packet(false, vec![8]);
    bactrian.request_progress_pause();
    assert!(bactrian.collection_required(false, false));
    assert!(!bactrian.collection_required(false, false));
    assert!(bactrian.collection_required(false, true));
}

#[test]
fn aged_spaces_take_turns() {
    let e = env(&[("MMTK_NURSERY_AGE", "1")]);
    let meta = heap();
    let mut bactrian = plan(&e);
    assert!(bactrian.aging_enabled(&e));
    let first = bactrian.aged_to();
    pause(&mut bactrian, &meta, &e, &inputs());
    let second = bactrian.aged_to();
    assert_ne!(first, second);
    assert!(bactrian.nursery_keeps_movable_survivors());
    assert_eq!(bactrian.nursery.copy, Some(CopySemantics::Nursery));
    pause(&mut bactrian, &meta, &e, &inputs());
    assert_eq!(bactrian.aged_to(), first);
}

#[test]
fn nothing_ages_during_a_cycle() {
    let e = env(&[("MMTK_NURSERY_AGE", "1")]);
    let meta = heap();
    let mut bactrian = marking(&e);
    bactrian.schedule_marking_packet(false, vec![8]);
    assert_eq!(bactrian.schedule_collection(&e, &inputs()).pause, Pause::Nursery);
    bactrian.prepare(&meta, &e, 8, false);
    assert!(!bactrian.nursery_keeps_movable_survivors());
    assert!(bactrian.is_emptied(SpaceKind::Aged0));
    assert!(bactrian.is_emptied(SpaceKind::Aged1));
    assert!(bactrian.is_emptied(SpaceKind::Nursery));
    assert!(!bactrian.is_emptied(SpaceKind::Immix));
}

/// A plan whose mature space has a live and a dead block in one chunk and a dead one in another,
/// and whose cycle has just been marked.
fn marked(meta: &mut HeapMetadata, e: &Environment) -> Bactrian {
    let mut bactrian = plan(e);
    for block in [START, START + 32768, START + 5 * CHUNK] {
        let address = Address(block);
        assert_eq!(
            bactrian.immix_space.get_clean_block(meta, address, false),
            Some(Block(address))
        );
    }
    bactrian.force_full_heap_collection();
    bactrian.schedule_collection(e, &inputs());
    let work = bactrian.prepare(meta, e, 8, false);
    assert!(work.common_full);
    assert!(work.counts_as_full);
    for packet in &work.mature.unwrap().prepare {
        packet.do_work(meta, &bactrian.immix_space);
    }
    bactrian.release(meta);
    bactrian.end_of_gc(false);
    let mut objects = ObjectModel::new();
    objects.define(mature(512), 300, Vec::new());
    let mut queue = Vec::new();
    bactrian.trace_mature(meta, &objects, &mut queue, mature(512));
    bactrian.post_scan_object(meta, &objects, mature(512));
    assert_eq!(queue, vec![mature(512)]);
    assert_eq!(bactrian.schedule_collection(e, &inputs()).pause, Pause::FinalMark);
    bactrian.prepare(meta, e, 8, false);
    bactrian.release(meta);
    bactrian.end_of_gc(false);
    bactrian
}

#[test]
fn a_quantum_without_budget_completes_the_sweep() {
    let e = env(&[]);
    let mut meta = heap();
    let mut bactrian = marked(&mut meta, &e);
    assert_eq!(bactrian.sweep_packets_remaining(), 2);
    bactrian.force_full_heap_collection();
    let schedule = bactrian.schedule_collection(&e, &inputs());
    assert_eq!(schedule.pause, Pause::Nursery);
    assert_eq!(
        schedule.packets,
        vec![(WorkBucketStage::Release, BactrianPacket::SweepQuantum { budgeted: true })]
    );
    let report =
        BactrianSweepQuantum::unbudgeted().do_work(&mut bactrian, &mut meta, &e, 0, 0, 0);
    assert_eq!(report.packets, 2);
    assert!(!report.contended);
    assert!(bactrian.sweep_queue_is_empty());
    assert!(bactrian.sweep_drained());
    let state = |n: usize| Block(Address(START + n * 32768)).get_state(&meta);
    assert_eq!(state(0), BlockState::Reusable { unavailable_lines: 2 });
    assert_eq!(state(1), BlockState::Unallocated);
    assert_eq!(state(5 * 128), BlockState::Unallocated);
}

#[test]
fn a_quantum_sweeps_at_least_its_share() {
    let e = env(&[]);
    let mut meta = heap();
    let mut bactrian = marked(&mut meta, &e);
    let quantum = BactrianSweepQuantum::budgeted(u64::MAX);
    let report = quantum.do_work(&mut bactrian, &mut meta, &e, 10, 10, u64::MAX);
    assert_eq!(report.packets, 2);
    assert!(bactrian.sweep_drained());
}

#[test]
fn a_spent_cap_ends_a_quantum() {
    let e = env(&[]);
    let mut meta = heap();
    let mut bactrian = marked(&mut meta, &e);
    let quantum = BactrianSweepQuantum::budgeted(0);
    let report = quantum.do_work(&mut bactrian, &mut meta, &e, 0, 0, 0);
    assert!(report.packets >= 1);
    assert!(report.packets < 2 || bactrian.sweep_queue_is_empty());
    assert_eq!(bactrian.sweep_packets_remaining(), 2 - report.packets);
}

#[test]
fn what_was_taken_decides_how_a_sweep_goes_on() {
    let e = env(&[]);
    let mut meta = heap();
    let mut bactrian = marked(&mut meta, &e);
    let now = std::time::Instant::now();
    let mut run = SweepRun { quota: 0, cap: 0, deadline_base: now, started: now, packets: 0 };
    let idle = BactrianSweepQuantum::budgeted(u64::MAX);
    let mut step = |quantum: &BactrianSweepQuantum, run: &mut SweepRun, taken| {
        quantum.run_taken(run, &mut bactrian, &mut meta, taken)
    };
    assert_eq!(step(&idle, &mut run, Taken::Empty), Some(SweepEnding::Drained));
    assert_eq!(step(&idle, &mut run, Taken::Retry), Some(SweepEnding::Contended));
    assert_eq!(run.packets, 0);
    assert_eq!(step(&idle, &mut run, Taken::Packet(START)), None);
    let spent = BactrianSweepQuantum::budgeted(0);
    assert_eq!(
        step(&spent, &mut run, Taken::Packet(START + 5 * CHUNK)),
        Some(SweepEnding::Expired)
    );
    assert_eq!(run.packets, 2);
}

#[test]
fn a_failed_attempt_is_repeated() {
    assert!(Taken::<usize>::Retry.try_again());
    assert!(!Taken::<usize>::Empty.try_again());
    assert!(!Taken::Packet(7).try_again());
}

#[test]
fn chunks_are_swept_one_by_one() {
    let e = env(&[]);
    let mut meta = heap();
    let mut bactrian = marked(&mut meta, &e);
    for chunk in [START, START + 5 * CHUNK] {
        match bactrian.pop_sweep_packet() {
            Taken::Packet(taken) => {
                assert_eq!(taken, chunk);
                bactrian.run_sweep_packet(&mut meta, taken);
            }
            _ => panic!("the chunk is gone"),
        }
    }
    assert!(matches!(bactrian.pop_sweep_packet(), Taken::Empty));
    assert!(!bactrian.sweep_drained());
    bactrian.sweep_queue_emptied(&e);
    assert!(bactrian.sweep_drained());
}

#[test]
fn a_fragmented_space_is_compacted() {
    let e = env(&[("MMTK_COMPACT_UTIL_PCT", "50")]);
    for (live, reusable, compacts) in [(64, 32, true), (64, 31, false), (63, 63, false)] {
        let mut meta = heap();
        let mut bactrian = plan(&e);
        for n in 0..live {
            bactrian.immix_space.get_clean_block(
                &mut meta,
                Address(START + n * 32768),
                false,
            );
        }
        bactrian.force_full_heap_collection();
        assert_eq!(pause(&mut bactrian, &meta, &e, &inputs()), Pause::InitialMark);
        let state = bactrian.immix_space.line_mark_state;
        for n in 0..live {
            let lines = if n < reusable { 1 } else { 128 };
            for line in 0..lines {
                Line(Address(START + n * 32768 + line * 256)).mark(&mut meta, state);
            }
        }
        assert_eq!(pause(&mut bactrian, &meta, &e, &inputs()), Pause::FinalMark);
        BactrianSweepQuantum::unbudgeted().do_work(&mut bactrian, &mut meta, &e, 0, 0, 0);
        assert_eq!(bactrian.immix_space.post_sweep_fragmentation(), (reusable, live));
        assert_eq!(bactrian.major_request_pending(), compacts);
    }
}

#[test]
fn sweep_shares() {
    assert_eq!(sweep_quota(100, 0, 50), 0);
    assert_eq!(sweep_quota(100, 10, 50), 20);
    assert_eq!(sweep_quota(101, 10, 50), 21);
    assert_eq!(sweep_quota(100, 10, 5), 100);
    assert_eq!(sweep_quota(0, 10, 50), 0);
}

#[test]
fn sweep_limits() {
    assert!(!sweep_expired(4, 5, 10, 100, 50, 50));
    assert!(sweep_expired(5, 5, 10, 100, 10, 50));
    assert!(!sweep_expired(5, 5, 10, 100, 9, 50));
    assert!(sweep_expired(0, 5, 10, 100, 10, 100));
    assert!(!sweep_expired(0, 5, 10, 100, 9, 100));
    assert!(sweep_escalates(1, 2, true));
    assert!(!sweep_escalates(0, 2, true));
    assert!(!sweep_escalates(1, 1, true));
    assert!(!sweep_escalates(1, 2, false));
}

fn quota_inputs() -> QuotaInputs {
    QuotaInputs {
        enqueued: 70,
        satb_enqueued: 30,
        backlog: 1000,
        promotion: 10,
        runway: 45,
        mark_rate: 0,
        min_slices: 0,
    }
}

#[test]
fn mark_quotas() {
    assert_eq!(mark_quota(&quota_inputs(), 60), 40 + 250);
    assert_eq!(mark_quota(&quota_inputs(), 200), 250);
    let measured = QuotaInputs { mark_rate: 5, min_slices: 10, ..quota_inputs() };
    assert_eq!(mark_quota(&measured, 100), 100);
    let idle = QuotaInputs { promotion: 0, ..quota_inputs() };
    assert_eq!(mark_quota(&idle, 100), 0);
    let still = QuotaInputs { promotion: 0, mark_rate: 5, min_slices: 10, ..quota_inputs() };
    assert_eq!(mark_quota(&still, 100), 1);
    assert!(mark_escalates(false, 4, true));
    assert!(!mark_escalates(true, 4, true));
    assert!(!mark_escalates(false, 3, true));
}

#[test]
fn the_quota_comes_before_the_budget() {
    let e = env(&[]);
    let mut bactrian = marking(&e);
    let quantum = BactrianMarkQuantum::budgeted(50);
    let inputs = QuotaInputs { promotion: 0, ..quota_inputs() };
    let mut run = quantum.start(&mut bactrian, &inputs, 1000);
    assert_eq!(run.quota, Some(100));
    assert_eq!(run.deadline, None);
    assert!(bactrian.common.full_semantics);
    assert!(!quantum.after_packet(&mut run, 1099, 10_000));
    assert_eq!(run.deadline, None);
    assert!(!quantum.after_packet(&mut run, 1100, 10_100));
    assert_eq!(run.deadline, Some(10_150));
    assert!(!quantum.after_packet(&mut run, 1200, 10_149));
    assert!(quantum.after_packet(&mut run, 1300, 10_150));
    let report = quantum.finish(&run, &mut bactrian, 70, 35, 1300);
    assert_eq!(report.packets, 4);
    assert_eq!(report.traced, 300);
    assert_eq!(report.net, Some(200));
    assert!(!bactrian.common.full_semantics);
    assert_eq!(bactrian.enqueued_at_last_quantum(), 105);
}

#[test]
fn a_quantum_without_budget_does_not_end() {
    let e = env(&[]);
    let mut bactrian = marking(&e);
    let quantum = BactrianMarkQuantum::unbudgeted();
    let mut run = quantum.start(&mut bactrian, &quota_inputs(), 0);
    assert_eq!(run.quota, None);
    for n in 1..10 {
        assert!(!quantum.after_packet(&mut run, n, u64::MAX));
    }
    let report = quantum.finish(&run, &mut bactrian, 70, 30, 9);
    assert_eq!(report.packets, 9);
    assert_eq!(report.net, None);
}

/// A worker that marks the objects of its packets, and follows their fields.
struct Marker {
    objects: ObjectModel,
    traced: usize,
    enqueued: usize,
}

impl MarkWorker for Marker {
    fn history(&self) -> MarkHistory {
        unreachable!("contracts alone speak of it")
    }

    fn run_marking_packet(
        &mut self,
        plan: &mut Bactrian,
        meta: &mut HeapMetadata,
        _from_barrier: bool,
        objects: Vec<usize>,
    ) {
        assert!(plan.common.full_semantics);
        let mut queue = Vec::new();
        for address in objects {
            let o = ObjectReference(Address(address));
            if !plan.should_skip_concurrent_trace(meta, o) {
                plan.trace_mature(meta, &self.objects, &mut queue, o);
                self.traced += 1;
            }
        }
        let mut children = Vec::new();
        for o in queue {
            for slot in self.objects.iterate_fields(o) {
                if let Some(child) = self.objects.load(slot) {
                    children.push(child.0 .0);
                }
            }
        }
        if !children.is_empty() {
            self.enqueued += children.len();
            plan.schedule_marking_packet(false, children);
        }
    }

    fn traced(&self) -> usize {
        self.traced
    }

    fn enqueued(&self) -> usize {
        self.enqueued
    }

    fn satb_enqueued(&self) -> usize {
        3
    }
}

/// A marker for a list of ten mature objects.
fn marker() -> Marker {
    let mut objects = ObjectModel::new();
    for n in 0..10 {
        let field = Slot(Address(START + 4096 + n * 64 + 8));
        objects.define(mature(4096 + n * 64), 16, vec![field]);
        if n < 9 {
            objects.store(field, mature(4096 + (n + 1) * 64));
        }
    }
    Marker { objects, traced: 0, enqueued: 0 }
}

#[test]
fn a_quantum_without_budget_marks_all() {
    let e = env(&[]);
    let mut meta = heap();
    let mut bactrian = marking(&e);
    let mut worker = marker();
    bactrian.schedule_marking_packet(false, vec![START + 4096]);
    let quantum = BactrianMarkQuantum::unbudgeted();
    let end = quantum.do_work(&mut bactrian, &mut meta, &quota_inputs(), &mut worker);
    assert_eq!(end.ending, MarkEnding::Drained);
    assert_eq!(end.report.packets, 10);
    assert_eq!(end.report.traced, 10);
    assert_eq!(end.report.net, None);
    assert!(bactrian.marking_queue_drained(false));
    assert!(!bactrian.common.full_semantics);
    assert_eq!(bactrian.enqueued_at_last_quantum(), 12);
    for n in 0..10 {
        assert!(bactrian.immix_space.is_marked(&meta, mature(4096 + n * 64)));
    }
}

#[test]
fn a_quantum_without_packets_is_drained() {
    let e = env(&[]);
    let mut meta = heap();
    let mut bactrian = marking(&e);
    let mut worker = marker();
    worker.enqueued = 20;
    let quantum = BactrianMarkQuantum::budgeted(u64::MAX);
    let inputs = QuotaInputs { enqueued: 20, satb_enqueued: 3, ..quota_inputs() };
    let end = quantum.do_work(&mut bactrian, &mut meta, &inputs, &mut worker);
    assert_eq!(end.ending, MarkEnding::Drained);
    assert_eq!(end.report.packets, 0);
    assert_eq!(end.report.traced, 0);
    assert_eq!(bactrian.enqueued_at_last_quantum(), 23);
}

#[test]
fn what_is_handed_to_marking_is_counted_up_to_the_limit() {
    let e = env(&[]);
    let mut meta = heap();
    let mut bactrian = marking(&e);
    let mut worker = marker();
    worker.enqueued = usize::MAX - 1;
    BactrianMarkQuantum::unbudgeted().do_work(
        &mut bactrian,
        &mut meta,
        &quota_inputs(),
        &mut worker,
    );
    assert_eq!(bactrian.enqueued_at_last_quantum(), usize::MAX);
}

#[test]
fn what_was_taken_decides_how_a_quantum_goes_on() {
    let e = env(&[]);
    let mut meta = heap();
    let mut bactrian = marking(&e);
    let mut worker = marker();
    let quantum = BactrianMarkQuantum::unbudgeted();
    let mut run = quantum.start(&mut bactrian, &quota_inputs(), 0);
    let started = std::time::Instant::now();
    let mut step = |taken| {
        quantum.run_taken(&mut run, &mut bactrian, &mut meta, &mut worker, taken, &started)
    };
    assert_eq!(step(Taken::Empty), Some(MarkEnding::Drained));
    assert_eq!(step(Taken::Retry), Some(MarkEnding::Interrupted));
    assert_eq!(step(Taken::Packet((false, vec![START + 4096]))), None);
    assert_eq!(run.packets, 1);
    assert_eq!(worker.traced, 1);
    match bactrian.pop_marking_packet() {
        Taken::Packet((false, packet)) => assert_eq!(packet, vec![START + 4096 + 64]),
        _ => panic!("the next object is lost"),
    }
}

#[test]
fn a_quantum_with_a_spent_budget_stops_after_its_quota() {
    let e = env(&[]);
    let mut meta = heap();
    let mut bactrian = marking(&e);
    let mut worker = marker();
    bactrian.schedule_marking_packet(false, vec![START + 4096]);
    let quantum = BactrianMarkQuantum::budgeted(0);
    worker.enqueued = 1;
    let inputs = QuotaInputs { enqueued: 1, satb_enqueued: 3, promotion: 0, ..quota_inputs() };
    let end = quantum.do_work(&mut bactrian, &mut meta, &inputs, &mut worker);
    assert_eq!(end.ending, MarkEnding::Expired);
    assert_eq!(end.run.quota, Some(4));
    assert_eq!(end.report.packets, 5);
    assert_eq!(end.report.net, Some(1));
    assert!(!bactrian.marking_queue_drained(false));
    assert!(!bactrian.common.full_semantics);
}

#[test]
fn an_overwritten_value_reaches_the_marker() {
    let e = env(&[]);
    let meta = heap();
    let mut bactrian = marking(&e);
    let mut objects = ObjectModel::new();
    let mut barrier = BactrianBarrier::new();
    barrier.set_satb_enabled(true);
    let slot = Slot(Address(START + 8));
    objects.store(slot, mature(1024));
    barrier.object_reference_write_pre(&mut bactrian, &meta, &objects, slot);
    objects.store(slot, nursery(64));
    barrier.object_reference_write_pre(&mut bactrian, &meta, &objects, slot);
    assert_eq!(barrier.satb_count(), 1);
    barrier.flush(&mut bactrian);
    match bactrian.pop_marking_packet() {
        Taken::Packet((true, packet)) => assert_eq!(packet, vec![START + 1024]),
        _ => panic!("the value is lost"),
    }
    assert!(barrier.take_packets().concurrent.is_empty());
}

#[test]
fn a_barrier_that_is_off_keeps_nothing() {
    let e = env(&[]);
    let meta = heap();
    let mut bactrian = plan(&e);
    let mut objects = ObjectModel::new();
    let mut barrier = BactrianBarrier::new();
    let slot = Slot(Address(START + 8));
    objects.store(slot, mature(1024));
    barrier.object_reference_write_pre(&mut bactrian, &meta, &objects, slot);
    barrier.load_weak_reference(&mut bactrian, &meta, mature(1024));
    barrier.flush(&mut bactrian);
    assert_eq!(barrier.satb_count(), 0);
    assert!(matches!(bactrian.pop_marking_packet(), Taken::Empty));
}

#[test]
fn an_object_is_remembered_once() {
    let e = env(&[]);
    let mut meta = heap();
    let mut bactrian = plan(&e);
    let mut barrier = BactrianBarrier::new();
    meta.log_bit.store(8, 1);
    barrier.object_reference_write_post(&mut meta, mature(64));
    barrier.object_reference_write_post(&mut meta, mature(64));
    barrier.object_reference_write_post(&mut meta, mature(128));
    assert_eq!(meta.log_bit.load(8), 0);
    barrier.flush(&mut bactrian);
    let packets = barrier.take_packets();
    assert_eq!(packets.objects, vec![vec![mature(64)]]);
    assert!(packets.regions.is_empty());
}

#[test]
fn a_copied_region_is_remembered() {
    let e = env(&[]);
    let meta = heap();
    let mut bactrian = plan(&e);
    let mut barrier = BactrianBarrier::new();
    let slice = |start: usize| MemorySlice {
        object: None,
        start: Address(start),
        slots: vec![Slot(Address(start))],
    };
    barrier.memory_region_copy_post(&bactrian, &meta, slice(START + 64));
    barrier.memory_region_copy_post(&bactrian, &meta, slice(START + CHUNK + 64));
    barrier.flush(&mut bactrian);
    let packets = barrier.take_packets();
    assert_eq!(packets.regions.len(), 1);
    assert_eq!(packets.regions[0].len(), 1);
    assert_eq!(packets.regions[0][0].start, Address(START + 64));
}

#[test]
fn mutators_follow_the_pauses() {
    let e = env(&[]);
    let meta = heap();
    let mut bactrian = plan(&e);
    let mut mutator = create_bactrian_mutator(&bactrian);
    let mut objects = ObjectModel::new();
    let slot = Slot(Address(START + 8));
    objects.store(slot, mature(1024));
    bactrian.force_full_heap_collection();
    bactrian.schedule_collection(&e, &inputs());
    mutator.mature.cursor = Address(START);
    mutator.nursery = BumpAllocator { cursor: Address(8), limit: Address(16) };
    assert!(!bactrian_mutator_prepare(&mut mutator, &bactrian, &e, false));
    assert_eq!(mutator.mature.cursor, Address(0));
    assert_eq!(mutator.nursery.limit, Address(16));
    bactrian.prepare(&meta, &e, 8, false);
    bactrian.release(&meta);
    assert!(!bactrian_mutator_release(&mut mutator, &bactrian, &e, true));
    assert_eq!(mutator.nursery.limit, Address(0));
    bactrian.end_of_gc(false);

    mutator.barrier.object_reference_write_pre(&mut bactrian, &meta, &objects, slot);
    assert_eq!(mutator.barrier.satb_count(), 1);
    let mut late = create_bactrian_mutator(&bactrian);
    late.barrier.object_reference_write_pre(&mut bactrian, &meta, &objects, slot);
    assert_eq!(late.barrier.satb_count(), 1);

    assert_eq!(bactrian.schedule_collection(&e, &inputs()).pause, Pause::FinalMark);
    assert!(bactrian_mutator_prepare(&mut mutator, &bactrian, &e, true));
    bactrian.prepare(&meta, &e, 8, false);
    bactrian.release(&meta);
    assert!(bactrian_mutator_release(&mut mutator, &bactrian, &e, true));
    bactrian.end_of_gc(false);
    mutator.barrier.object_reference_write_pre(&mut bactrian, &meta, &objects, slot);
    assert_eq!(mutator.barrier.satb_count(), 1);
}

#[test]
fn allocators_of_a_mutator() {
    assert_eq!(reserved_allocators(), ReservedAllocators { n_bump_pointer: 1, n_immix: 1 });
    let common = AllocatorSelector::FreeList { index: 3 };
    assert_eq!(
        allocator_for(AllocationSemantics::Default, common, true),
        AllocatorSelector::BumpPointer { index: 0 }
    );
    assert_eq!(
        allocator_for(AllocationSemantics::NonMoving, common, false),
        AllocatorSelector::Immix { index: 0 }
    );
    assert_eq!(allocator_for(AllocationSemantics::NonMoving, common, true), common);
    assert_eq!(allocator_for(AllocationSemantics::Los, common, false), common);
    let mapping = space_mapping(vec![(common, SpaceKind::LargeObject)]);
    assert_eq!(mapping.len(), 3);
    assert_eq!(mapping[1], (AllocatorSelector::BumpPointer { index: 0 }, SpaceKind::Nursery));
    assert_eq!(mapping[2], (AllocatorSelector::Immix { index: 0 }, SpaceKind::Immix));
}

#[test]
fn medium_objects_may_keep_their_run() {
    let e = env(&[("MMTK_MEDIUM_TO", "freelist")]);
    let mut bactrian = plan(&e);
    let mut mutator = create_bactrian_mutator(&bactrian);
    bactrian.schedule_collection(&e, &inputs());
    mutator.mature.cursor = Address(START);
    assert!(bactrian_mutator_prepare(&mut mutator, &bactrian, &e, true));
    assert_eq!(mutator.mature.cursor, Address(START));
    assert!(!bactrian_mutator_release(&mut mutator, &bactrian, &e, true));
    assert_eq!(mutator.mature.cursor, Address(START));
}

#[test]
fn a_nursery_object_is_copied_once() {
    let e = env(&[]);
    let mut meta = heap();
    let mut bactrian = plan(&e);
    let mut objects = ObjectModel::new();
    let mut copies = CopyTargets::new();
    copies.to.insert(START + CHUNK + 64, START + 4096);
    let slots = [Slot(Address(16)), Slot(Address(24))];
    for slot in slots {
        objects.store(slot, nursery(64));
    }
    bactrian.schedule_collection(&e, &inputs());
    bactrian.prepare(&meta, &e, 8, false);
    let mut edges = BactrianNurseryProcessEdges::new(slots.to_vec(), &bactrian);
    edges.process_slots(&mut bactrian, &mut meta, &mut objects, &copies, false);
    for slot in slots {
        assert_eq!(objects.load(slot), Some(mature(4096)));
    }
    assert_eq!(edges.nodes, vec![mature(4096)]);
    assert!(bactrian.immix_space.is_marked(&meta, mature(4096)));
}

#[test]
fn the_closure_leaves_the_nursery() {
    let e = env(&[]);
    let mut meta = heap();
    let mut bactrian = plan(&e);
    let mut objects = ObjectModel::new();
    let mut copies = CopyTargets::new();
    for n in 0..4 {
        copies.to.insert(START + CHUNK + n * 64, START + 8192 + n * 64);
        let field = Slot(Address(START + 8192 + n * 64 + 8));
        objects.define(mature(8192 + n * 64), 32, vec![field]);
        objects.store(field, nursery((n + 1) % 4 * 64));
    }
    let root = Slot(Address(16));
    objects.store(root, nursery(0));
    bactrian.schedule_collection(&e, &inputs());
    bactrian.prepare(&meta, &e, 8, false);
    let mut edges = BactrianNurseryProcessEdges::new(vec![root], &bactrian);
    edges.process_slots(&mut bactrian, &mut meta, &mut objects, &copies, false);
    let rest = edges.flush(
        &mut bactrian,
        &mut meta,
        &mut objects,
        &copies,
        &HashSet::new(),
        true,
        false,
    );
    assert!(rest.is_empty());
    assert_eq!(objects.load(root), Some(mature(8192)));
    for n in 0..4 {
        let field = Slot(Address(START + 8192 + n * 64 + 8));
        assert_eq!(objects.load(field), Some(mature(8192 + (n + 1) % 4 * 64)));
    }
}

#[test]
fn objects_without_known_slots_are_left_to_others() {
    let e = env(&[]);
    let mut meta = heap();
    let mut bactrian = plan(&e);
    let mut objects = ObjectModel::new();
    let mut copies = CopyTargets::new();
    copies.to.insert(START + CHUNK, START + 8192);
    let root = Slot(Address(16));
    objects.store(root, nursery(0));
    bactrian.schedule_collection(&e, &inputs());
    bactrian.prepare(&meta, &e, 8, false);
    let mut edges = BactrianNurseryProcessEdges::new(vec![root], &bactrian);
    edges.process_slots(&mut bactrian, &mut meta, &mut objects, &copies, false);
    let mut no_slots = HashSet::new();
    no_slots.insert(START + 8192);
    let rest = edges.drain_closure_locally(
        &mut bactrian,
        &mut meta,
        &mut objects,
        &copies,
        &no_slots,
    );
    assert_eq!(rest, vec![mature(8192)]);
}

#[test]
fn survivors_stay_young_while_they_age() {
    let e = env(&[("MMTK_NURSERY_AGE", "1")]);
    let mut meta = heap();
    let mut bactrian = plan(&e);
    let mut objects = ObjectModel::new();
    bactrian.schedule_collection(&e, &inputs());
    bactrian.prepare(&meta, &e, 8, false);
    let (to, from) = if bactrian.aged_to() == SpaceKind::Aged0 {
        (aged0(0), aged1(0))
    } else {
        (aged1(0), aged0(0))
    };
    let mut copies = CopyTargets::new();
    copies.to.insert(START + CHUNK, to.0 .0);
    copies.to.insert(from.0 .0, START + 4096);
    let slots = [Slot(Address(16)), Slot(Address(24))];
    objects.store(slots[0], nursery(0));
    objects.store(slots[1], from);
    let mut edges = BactrianNurseryProcessEdges::new(slots.to_vec(), &bactrian);
    edges.process_slots(&mut bactrian, &mut meta, &mut objects, &copies, false);
    assert_eq!(objects.load(slots[0]), Some(to));
    assert_eq!(objects.load(slots[1]), Some(mature(4096)));
    assert!(bactrian.is_object_in_nursery(&meta, to));
    assert!(!bactrian.is_object_in_nursery(&meta, mature(4096)));
}

#[test]
fn the_first_pause_seeds_the_marker() {
    let e = env(&[]);
    let mut meta = heap();
    let mut bactrian = plan(&e);
    let mut objects = ObjectModel::new();
    let copies = CopyTargets::new();
    let root = Slot(Address(16));
    objects.store(root, mature(256));
    bactrian.force_full_heap_collection();
    assert_eq!(bactrian.schedule_collection(&e, &inputs()).pause, Pause::InitialMark);
    bactrian.prepare(&meta, &e, 8, false);
    let mut edges = BactrianNurseryProcessEdges::new(vec![root; SEED_CAPACITY + 1], &bactrian);
    edges.process_slots(&mut bactrian, &mut meta, &mut objects, &copies, false);
    assert_eq!(edges.mark_seed, vec![mature(256)]);
    edges.flush_mark_seed(&mut bactrian);
    assert!(edges.mark_seed.is_empty());
    for len in [SEED_CAPACITY, 1] {
        match bactrian.pop_marking_packet() {
            Taken::Packet((false, packet)) => assert_eq!(packet, vec![START + 256; len]),
            _ => panic!("the seeds are lost"),
        }
    }
    assert!(!bactrian.immix_space.is_marked(&meta, mature(256)));
}

#[test]
fn the_last_pause_marks_what_was_missed() {
    let e = env(&[]);
    let mut meta = heap();
    let mut bactrian = marking(&e);
    let mut objects = ObjectModel::new();
    objects.define(mature(256), 24, Vec::new());
    let copies = CopyTargets::new();
    let roots = vec![Slot(Address(16)), Slot(Address(24))];
    objects.store(roots[0], mature(256));
    assert_eq!(bactrian.schedule_collection(&e, &inputs()).pause, Pause::FinalMark);
    bactrian.prepare(&meta, &e, 8, false);
    let mut edges = BactrianNurseryProcessEdges::new(roots, &bactrian);
    edges.process_slots(&mut bactrian, &mut meta, &mut objects, &copies, false);
    assert!(bactrian.immix_space.is_marked(&meta, mature(256)));
    assert_eq!(edges.nodes, vec![mature(256)]);
    assert_eq!(bactrian.immix_space.major_live_bytes(), 24);
    assert_eq!(bactrian.mature_footprint_and_live(3), Some((12288, 24)));
}

#[test]
fn a_young_large_object_is_promoted_in_place() {
    let e = env(&[]);
    let mut meta = heap();
    let mut bactrian = plan(&e);
    let mut objects = ObjectModel::new();
    let copies = CopyTargets::new();
    let root = Slot(Address(16));
    objects.store(root, large(0));
    bactrian.common.young.insert(large(0).0 .0);
    bactrian.common.untraced.insert(large(0).0 .0);
    assert!(bactrian.is_object_in_nursery(&meta, large(0)));
    assert!(BactrianOldifyOps::is_young_los(&bactrian, &meta, large(0)));
    bactrian.schedule_collection(&e, &inputs());
    bactrian.prepare(&meta, &e, 8, false);
    let mut edges = BactrianNurseryProcessEdges::new(vec![root, root], &bactrian);
    edges.process_slots(&mut bactrian, &mut meta, &mut objects, &copies, false);
    assert_eq!(objects.load(root), Some(large(0)));
    assert_eq!(edges.nodes, vec![large(0)]);
    assert!(!bactrian.is_object_in_nursery(&meta, large(0)));
}

#[test]
fn the_runtime_may_walk_the_slots() {
    let e = env(&[("MMTK_UP_OLDIFY", "1")]);
    let mut bactrian = plan(&e);
    bactrian.schedule_collection(&e, &inputs());
    let none = BactrianNurseryProcessEdges::new(Vec::new(), &bactrian);
    assert!(!none.offers_oldify(&bactrian, &e, true, false));
    let edges = BactrianNurseryProcessEdges::new(vec![Slot(Address(16))], &bactrian);
    assert!(edges.offers_oldify(&bactrian, &e, true, false));
    assert!(!edges.offers_oldify(&bactrian, &e, false, false));
    assert!(!edges.offers_oldify(&bactrian, &e, true, true));
    assert!(!edges.offers_oldify(&bactrian, &env(&[]), true, false));
}

#[test]
fn a_promoted_large_object_is_promoted_once() {
    let e = env(&[]);
    let mut bactrian = plan(&e);
    bactrian.common.young.insert(large(0).0 .0);
    bactrian.common.untraced.insert(large(0).0 .0);
    assert!(BactrianOldifyOps::promote_young_los(&mut bactrian, large(0)));
    assert!(!BactrianOldifyOps::promote_young_los(&mut bactrian, large(0)));
}

#[test]
fn young_addresses() {
    let e = env(&[]);
    let meta = heap();
    let bactrian = plan(&e);
    for (o, young) in [
        (mature(0), false),
        (nursery(0), true),
        (aged0(8), true),
        (aged1(16), true),
        (large(0), false),
    ] {
        assert_eq!(bactrian.is_object_in_nursery(&meta, o), young);
        assert_eq!(bactrian.should_skip_concurrent_trace(&meta, o), young);
    }
    assert!(bactrian.is_address_in_nursery(&meta, Address(START + CHUNK)));
    assert!(!bactrian.is_address_in_nursery(&meta, Address(8)));
}

#[test]
fn pages_of_the_plan() {
    let bactrian = plan(&env(&[]));
    assert_eq!(bactrian.get_collection_reserved_pages(1, 2, 3, 4), 10);
    assert_eq!(bactrian.get_used_pages(1, 2, 3, 4), 10);
    assert_eq!(bactrian.get_mature_reserved_pages(1, 2, 3), 6);
    assert_eq!(bactrian.get_available_pages(10, 30), 0);
}

#[test]
fn the_plan_states_its_demands() {
    let (constraints, _) = Bactrian::constraints(4096);
    assert!(constraints.moves_objects);
    assert_eq!(constraints.barrier, BarrierSelector::SATBBarrier);
    assert_eq!(
        Bactrian::copy_selector(CopySemantics::PromoteToMature),
        CopySelector::ImmixHybrid { index: 0 }
    );
    assert_eq!(Bactrian::unused_buckets().len(), 6);
}
