use crossbeam::queue::SegQueue;
use mmtk::args::Environment;
use mmtk::plan::constraints::{BarrierSelector, CopySelector, CopySemantics};
use mmtk::plan::lxr::barrier::LXRFieldBarrierSemantics;
use mmtk::plan::lxr::global::{GlobalSpec, LxrPacket, LXR};
use mmtk::plan::lxr::rc::{
    lxr_keep_alive_recursive, ProcessDecs, ProcessIncs, RCImmixCollectRootEdges, EDGE_KIND_MATURE,
    EDGE_KIND_ROOT,
};
use mmtk::plan::lxr::Pause;
use mmtk::policy::immix::block::{Block, BlockState};
use mmtk::scheduler::WorkBucketStage;
use mmtk::util::address::{Address, ObjectReference};
use mmtk::util::metadata::{HeapMetadata, SpaceKind};
use mmtk::util::rc::RefCountHelper;
use mmtk::util::vm::{MetadataLocation, ObjectModel, Slot, VmConfig};
use mmtk::LazySweepingJobsCounter;

const START: usize = 0x4000_0000;

fn vm() -> VmConfig {
    VmConfig {
        header_forwarding_sentinel: false,
        heap_start: START,
        forwarding_pointer: MetadataLocation::InHeader { bit_offset: 0 },
        forwarding_bits: MetadataLocation::OnSide,
        mark_bit: MetadataLocation::OnSide,
        pinning_bit: None,
        single_tracer: false,
    }
}

fn env(vars: &[(&str, &str)]) -> Environment {
    Environment {
        vars: vars
            .iter()
            .map(|(name, value)| (name.to_string(), Some(value.to_string())))
            .collect(),
    }
}

fn heap() -> HeapMetadata {
    let mut meta = HeapMetadata::new(Address(START), 2);
    meta.set_space(0, SpaceKind::Immix);
    meta.set_space(1, SpaceKind::LargeObject);
    meta
}

fn plan() -> LXR {
    LXR::new(vm(), 2, 1, false, false, true)
}

fn object(offset: usize) -> ObjectReference {
    ObjectReference(Address(START + offset))
}

fn slot(offset: usize) -> Slot {
    Slot(Address(START + offset))
}

/// A list of three objects: the first refers to the second, which refers to the third.
fn list(objects: &mut ObjectModel) -> [ObjectReference; 3] {
    let nodes = [object(0x100), object(0x200), object(0x300)];
    for (i, node) in nodes.iter().enumerate() {
        let field = Slot(Address(node.0 .0 + 8));
        objects.define(*node, 16, vec![field]);
        if i < 2 {
            objects.store(field, nodes[i + 1]);
        }
    }
    nodes
}

#[test]
fn roots_are_counted_and_remembered() {
    let mut meta = heap();
    let mut lxr = plan();
    let mut objects = ObjectModel::new();
    let nodes = list(&mut objects);
    let root = Slot(Address(16));
    objects.store(root, nodes[0]);
    lxr.immix_space.get_clean_block(&mut meta, Address(START), false);
    let mut incs = ProcessIncs::<EDGE_KIND_ROOT>::new(vec![root]);
    incs.do_work(&mut meta, &objects, &mut lxr.immix_space, &mut lxr.curr_roots);
    for node in nodes {
        assert_eq!(RefCountHelper.count(&meta, node), 1);
    }
    assert!(incs.take_scheduled().is_empty());
    assert_eq!(lxr.curr_roots.len(), 1);
    assert_eq!(lxr.curr_roots.pop(), Some(vec![nodes[0].0 .0]));
    assert!(Block(Address(START)).is_in_place_promoted(&meta));
}

#[test]
fn increments_of_fields_remember_nothing() {
    let mut meta = heap();
    let mut lxr = plan();
    let mut objects = ObjectModel::new();
    let nodes = list(&mut objects);
    lxr.immix_space.get_clean_block(&mut meta, Address(START), false);
    let mut incs = ProcessIncs::<EDGE_KIND_MATURE>::new(vec![slot(0x108), slot(0x108)]);
    incs.do_work(&mut meta, &objects, &mut lxr.immix_space, &mut lxr.curr_roots);
    assert_eq!(RefCountHelper.count(&meta, nodes[0]), 0);
    assert_eq!(RefCountHelper.count(&meta, nodes[1]), 2);
    assert_eq!(RefCountHelper.count(&meta, nodes[2]), 1);
    assert!(lxr.curr_roots.is_empty());
}

#[test]
fn a_death_is_passed_on() {
    let mut meta = heap();
    let mut lxr = plan();
    let mut objects = ObjectModel::new();
    let nodes = list(&mut objects);
    lxr.immix_space.get_clean_block(&mut meta, Address(START), false);
    for node in nodes {
        let _ = RefCountHelper.inc(&mut meta, node);
    }
    let _ = RefCountHelper.inc(&mut meta, nodes[2]);
    let mut decs = ProcessDecs::new(vec![nodes[0]], LazySweepingJobsCounter::new_decs());
    decs.do_work(&mut meta, &objects, &mut lxr.immix_space, true);
    assert_eq!(RefCountHelper.count(&meta, nodes[0]), 0);
    assert_eq!(RefCountHelper.count(&meta, nodes[1]), 0);
    assert_eq!(RefCountHelper.count(&meta, nodes[2]), 1);
    assert!(decs.take_scheduled().is_empty());
    let packets = lxr
        .immix_space
        .schedule_rc_block_sweeping_tasks(&LazySweepingJobsCounter::new());
    assert_eq!(packets.len(), 1);
}

#[test]
fn root_increments_are_taken_back() {
    let mut meta = heap();
    let mut lxr = plan();
    let mut objects = ObjectModel::new();
    let nodes = list(&mut objects);
    let root = Slot(Address(16));
    objects.store(root, nodes[0]);
    lxr.immix_space.get_clean_block(&mut meta, Address(START), false);
    let mut incs = ProcessIncs::<EDGE_KIND_ROOT>::new(vec![root]);
    incs.do_work(&mut meta, &objects, &mut lxr.immix_space, &mut lxr.curr_roots);

    let e = env(&[]);
    lxr.schedule_collection(&meta, 10, &e);
    lxr.prepare();
    lxr.release(&mut meta);
    lxr.end_of_gc(100, 10, &e, false);

    let mut schedule = lxr.schedule_collection(&meta, 10, &e);
    assert_eq!(schedule.prev_root_decs.len(), 1);
    schedule.prev_root_decs[0].do_work(&mut meta, &objects, &mut lxr.immix_space, true);
    for node in nodes {
        assert_eq!(RefCountHelper.count(&meta, node), 0);
    }
}

#[test]
fn roots_become_increments() {
    let mut meta = heap();
    let mut lxr = plan();
    let mut objects = ObjectModel::new();
    let nodes = list(&mut objects);
    let root = Slot(Address(16));
    objects.store(root, nodes[2]);
    lxr.immix_space.get_clean_block(&mut meta, Address(START), false);
    let mut roots = RCImmixCollectRootEdges::new(vec![root]);
    let (trace, scheduled) = roots.process_slots(
        &mut meta,
        &objects,
        &mut lxr.immix_space,
        &mut lxr.curr_roots,
        Some(Pause::RefCount),
    );
    assert_eq!(trace, None);
    assert!(scheduled.is_empty());
    assert_eq!(RefCountHelper.count(&meta, nodes[2]), 1);
}

#[test]
fn a_kept_object_keeps_what_it_reaches() {
    let mut meta = heap();
    let mut lxr = plan();
    let mut objects = ObjectModel::new();
    let nodes = list(&mut objects);
    lxr.immix_space.get_clean_block(&mut meta, Address(START), false);
    lxr_keep_alive_recursive(&mut meta, &objects, &mut lxr.immix_space, nodes[0]);
    for node in nodes {
        assert_eq!(RefCountHelper.count(&meta, node), 1);
    }
    lxr_keep_alive_recursive(&mut meta, &objects, &mut lxr.immix_space, nodes[0]);
    assert_eq!(RefCountHelper.count(&meta, nodes[0]), 2);
    assert_eq!(RefCountHelper.count(&meta, nodes[1]), 1);
    lxr_keep_alive_recursive(
        &mut meta,
        &objects,
        &mut lxr.immix_space,
        ObjectReference(Address(8)),
    );
}

#[test]
fn a_field_is_logged_once() {
    let mut meta = heap();
    let mut objects = ObjectModel::new();
    let nodes = list(&mut objects);
    let mut barrier = LXRFieldBarrierSemantics::new();
    let field = slot(0x108);
    meta.field_unlog.store(0x108 / 8, 1);
    barrier.object_reference_write_slow(&mut meta, &objects, field);
    objects.store(field, nodes[2]);
    barrier.object_reference_write_slow(&mut meta, &objects, field);
    barrier.flush(&mut meta);
    let (incs, decs) = barrier.take_packets();
    assert_eq!(incs, vec![vec![field]]);
    assert_eq!(decs, vec![vec![nodes[1]]]);
    assert_eq!(RefCountHelper.inc_buffer_size(&meta), 1);
    barrier.flush(&mut meta);
    assert_eq!(barrier.take_packets(), (Vec::new(), Vec::new()));
}

#[test]
fn a_full_buffer_is_handed_on() {
    let mut meta = heap();
    let objects = ObjectModel::new();
    let mut barrier = LXRFieldBarrierSemantics::new();
    let fields: Vec<Slot> = (0..4097).map(|i| slot(i * 8)).collect();
    for i in 0..4097 {
        meta.field_unlog.store(i, 1);
    }
    barrier.memory_region_copy_slow(&mut meta, &objects, &fields);
    let (incs, decs) = barrier.take_packets();
    assert_eq!(incs.len(), 1);
    assert_eq!(incs[0].len(), 4096);
    assert!(decs.is_empty());
}

#[test]
fn a_terminating_mutator_counts_and_drops() {
    let mut meta = heap();
    let mut objects = ObjectModel::new();
    let nodes = list(&mut objects);
    let mut barrier = LXRFieldBarrierSemantics::new();
    let field = slot(0x108);
    meta.field_unlog.store(0x108 / 8, 1);
    barrier.object_reference_write_slow(&mut meta, &objects, field);
    objects.store(field, nodes[2]);
    barrier.flush_terminating(&mut meta, &objects);
    assert_eq!(RefCountHelper.count(&meta, nodes[2]), 1);
    assert_eq!(RefCountHelper.count(&meta, nodes[1]), 0);
    barrier.flush(&mut meta);
    assert_eq!(barrier.take_packets(), (Vec::new(), Vec::new()));
}

#[test]
fn a_pause_schedules_its_packets() {
    let meta = heap();
    let mut lxr = plan();
    let schedule = lxr.schedule_collection(&meta, 0, &env(&[]));
    assert_eq!(lxr.current_pause(), Some(Pause::RefCount));
    assert_eq!(lxr.previous_pause(), None);
    assert_eq!(
        schedule.packets,
        vec![
            (WorkBucketStage::Unconstrained, LxrPacket::StopMutators),
            (WorkBucketStage::RCProcessIncs, LxrPacket::FastRCPrepare),
            (WorkBucketStage::Release, LxrPacket::Release),
        ]
    );
    assert_eq!(
        schedule.sentinel,
        (WorkBucketStage::STWRCDecsAndSweep, LxrPacket::RCBlockSweepEpilogue)
    );
    assert!(schedule.mark_zeroing.is_empty());
    assert_eq!(schedule.prev_root_decs.len(), 1);
    assert!(schedule.enabled.contains(&(WorkBucketStage::Closure, false)));
    assert_eq!(schedule.enabled.len(), 10);
}

fn pause(lxr: &mut LXR, meta: &mut HeapMetadata, e: &Environment, before: usize, after: usize) -> Pause {
    lxr.schedule_collection(meta, before, e);
    let pause = lxr.current_pause().unwrap();
    lxr.prepare();
    lxr.release(meta);
    lxr.end_of_gc(100, after, e, false);
    assert_eq!(lxr.current_pause(), None);
    assert_eq!(lxr.previous_pause(), Some(pause));
    pause
}

#[test]
fn an_ineffective_pause_is_followed_by_a_trace() {
    let mut meta = heap();
    let mut lxr = plan();
    let e = env(&[]);
    assert_eq!(pause(&mut lxr, &mut meta, &e, 90, 88), Pause::RefCount);
    assert_eq!(pause(&mut lxr, &mut meta, &e, 90, 89), Pause::Full);
    assert_eq!(pause(&mut lxr, &mut meta, &e, 90, 50), Pause::RefCount);
    assert_eq!(pause(&mut lxr, &mut meta, &e, 60, 60), Pause::RefCount);
}

#[test]
fn a_critically_full_heap_is_traced() {
    let mut meta = heap();
    let mut lxr = plan();
    let e = env(&[]);
    assert_eq!(pause(&mut lxr, &mut meta, &e, 200, 98), Pause::RefCount);
    assert_eq!(pause(&mut lxr, &mut meta, &e, 98, 10), Pause::Full);
    let never = env(&[("MMTK_RC_BACKUP_HI_PCT", "0")]);
    assert_eq!(pause(&mut lxr, &mut meta, &never, 200, 99), Pause::RefCount);
    assert_eq!(pause(&mut lxr, &mut meta, &never, 99, 99), Pause::RefCount);
}

#[test]
fn the_trace_can_be_switched_off() {
    let mut meta = heap();
    let mut lxr = plan();
    let off = env(&[("MMTK_RC_NO_CM", "1")]);
    assert_eq!(pause(&mut lxr, &mut meta, &off, 99, 99), Pause::RefCount);
    assert_eq!(pause(&mut lxr, &mut meta, &off, 99, 99), Pause::RefCount);
}

#[test]
fn a_trace_clears_the_marks() {
    let mut meta = heap();
    let mut lxr = plan();
    let e = env(&[]);
    lxr.immix_space.get_clean_block(&mut meta, Address(START), false);
    pause(&mut lxr, &mut meta, &e, 99, 99);
    let schedule = lxr.schedule_collection(&meta, 99, &e);
    assert_eq!(schedule.mark_zeroing.len(), 1);
    assert!(schedule.enabled.contains(&(WorkBucketStage::Closure, true)));
}

#[test]
fn the_plan_reports_when_asked() {
    let mut meta = heap();
    let mut lxr = plan();
    let e = env(&[]);
    lxr.schedule_collection(&meta, 1, &e);
    lxr.prepare();
    lxr.release(&mut meta);
    let stats = lxr.end_of_gc(100, 1, &e, true).unwrap();
    assert!(!stats.full);
    assert_eq!(stats.young, 0);
}

#[test]
fn the_plan_never_moves_objects() {
    let lxr = plan();
    let constraints = LXR::constraints();
    assert!(!constraints.moves_objects);
    assert!(constraints.rc_enabled);
    assert_eq!(constraints.barrier, BarrierSelector::FieldBarrier);
    assert_eq!(constraints.max_non_los_default_alloc_bytes, 16384);
    assert!(!lxr.current_gc_may_move_object());
    assert!(!lxr.in_defrag(object(0)));
    assert!(lxr.last_collection_was_exhaustive());
    assert_eq!(LXR::copy_selector(CopySemantics::DefaultCopy), CopySelector::Immix { index: 0 });
    assert_eq!(LXR::copy_selector(CopySemantics::Mature), CopySelector::Unused);
    assert_eq!(lxr.get_used_pages(3, 4), 7);
}

#[test]
fn the_plan_registers_its_tables() {
    assert_eq!(
        LXR::global_side_metadata_specs(MetadataLocation::OnSide, MetadataLocation::OnSide),
        vec![GlobalSpec::LogBit, GlobalSpec::FieldUnlogBit, GlobalSpec::RcTable]
    );
    assert_eq!(
        LXR::global_side_metadata_specs(
            MetadataLocation::InHeader { bit_offset: 0 },
            MetadataLocation::OnSide
        ),
        vec![GlobalSpec::FieldUnlogBit, GlobalSpec::RcTable]
    );
}

#[test]
fn objects_are_marked_once() {
    let mut meta = heap();
    let lxr = plan();
    assert!(lxr.mark(&mut meta, object(64)));
    assert!(!lxr.mark(&mut meta, object(64)));
    assert!(lxr.is_marked(&meta, object(64)));
}

#[test]
fn large_objects_are_not_promoted_by_block() {
    let mut meta = heap();
    let mut lxr = plan();
    let mut objects = ObjectModel::new();
    let large = object(4194304);
    objects.define(large, 32768, vec![Slot(Address(large.0 .0 + 8))]);
    let root = Slot(Address(16));
    objects.store(root, large);
    let roots: SegQueue<Vec<usize>> = SegQueue::new();
    let mut queue = roots;
    let mut incs = ProcessIncs::<EDGE_KIND_ROOT>::new(vec![root]);
    incs.do_work(&mut meta, &objects, &mut lxr.immix_space, &mut queue);
    assert_eq!(RefCountHelper.count(&meta, large), 1);
    assert_eq!(queue.pop(), Some(vec![large.0 .0]));
    assert_eq!(Block(Address(START + 4194304)).get_state(&meta), BlockState::Unallocated);
}

#[test]
fn a_decrement_without_a_count_does_nothing() {
    let mut meta = heap();
    let mut lxr = plan();
    let mut objects = ObjectModel::new();
    let nodes = list(&mut objects);
    lxr.immix_space.get_clean_block(&mut meta, Address(START), false);
    let _ = RefCountHelper.inc(&mut meta, nodes[1]);
    let mut decs = ProcessDecs::new(vec![nodes[0]], LazySweepingJobsCounter::new_decs());
    decs.do_work(&mut meta, &objects, &mut lxr.immix_space, true);
    assert_eq!(RefCountHelper.count(&meta, nodes[0]), 0);
    assert_eq!(RefCountHelper.count(&meta, nodes[1]), 1);
}

#[test]
fn a_stuck_count_is_not_taken_back() {
    let mut meta = heap();
    let mut lxr = plan();
    let mut objects = ObjectModel::new();
    let nodes = list(&mut objects);
    lxr.immix_space.get_clean_block(&mut meta, Address(START), false);
    let _ = RefCountHelper.inc(&mut meta, nodes[1]);
    let _ = RefCountHelper.stick(&mut meta, nodes[0]);
    let stuck = RefCountHelper.count(&meta, nodes[0]);
    let mut decs = ProcessDecs::new(vec![nodes[0]; 300], LazySweepingJobsCounter::new_decs());
    decs.do_work(&mut meta, &objects, &mut lxr.immix_space, true);
    assert_eq!(RefCountHelper.count(&meta, nodes[0]), stuck);
    assert_eq!(RefCountHelper.count(&meta, nodes[1]), 1);
}

#[test]
fn a_promoted_object_marks_the_lines_that_it_covers() {
    let mut meta = heap();
    let mut lxr = plan();
    let mut objects = ObjectModel::new();
    objects.define(object(0x100), 1024, Vec::new());
    let root = Slot(Address(16));
    objects.store(root, object(0x100));
    lxr.immix_space.get_clean_block(&mut meta, Address(START), false);
    let mut incs = ProcessIncs::<EDGE_KIND_ROOT>::new(vec![root]);
    incs.do_work(&mut meta, &objects, &mut lxr.immix_space, &mut lxr.curr_roots);
    assert_eq!(RefCountHelper.count(&meta, object(0x100)), 1);
    assert!(RefCountHelper.address_is_in_straddle_line(&meta, Address(START + 0x200)));
    let mut decs = ProcessDecs::new(vec![object(0x100)], LazySweepingJobsCounter::new_decs());
    decs.do_work(&mut meta, &objects, &mut lxr.immix_space, true);
    assert_eq!(RefCountHelper.count(&meta, object(0x100)), 0);
    assert!(!RefCountHelper.address_is_in_straddle_line(&meta, Address(START + 0x200)));
}

#[test]
fn a_cycle_is_only_found_by_a_trace() {
    let mut meta = heap();
    let mut lxr = plan();
    let mut objects = ObjectModel::new();
    let (a, b) = (object(0x100), object(0x200));
    for (o, target) in [(a, b), (b, a)] {
        let field = Slot(Address(o.0 .0 + 8));
        objects.define(o, 16, vec![field]);
        objects.store(field, target);
    }
    let root = Slot(Address(16));
    objects.store(root, a);
    lxr.immix_space.get_clean_block(&mut meta, Address(START), false);
    let mut incs = ProcessIncs::<EDGE_KIND_ROOT>::new(vec![root]);
    incs.do_work(&mut meta, &objects, &mut lxr.immix_space, &mut lxr.curr_roots);
    assert_eq!(RefCountHelper.count(&meta, a), 2);
    assert_eq!(RefCountHelper.count(&meta, b), 1);
    let mut decs = ProcessDecs::new(vec![a], LazySweepingJobsCounter::new_decs());
    decs.do_work(&mut meta, &objects, &mut lxr.immix_space, true);
    assert_eq!(RefCountHelper.count(&meta, a), 1);
    lxr.immix_space.rc_sweep_nursery_blocks(&mut meta, &env(&[]));
    for packet in lxr.immix_space.schedule_dead_cycle_sweep(&meta) {
        packet.do_work(&mut meta, &objects, &mut lxr.immix_space);
    }
    assert_eq!(RefCountHelper.count(&meta, a), 0);
    assert_eq!(RefCountHelper.count(&meta, b), 0);
}
