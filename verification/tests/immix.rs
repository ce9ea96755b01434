use mmtk::args::Environment;
use mmtk::policy::immix::block::{Block, BlockState};
use mmtk::policy::immix::chunk_work::{FlushPageResource, PrepareBlockState, SweepChunk};
use mmtk::policy::immix::copy_context::{ImmixAllocator, ImmixCopyContext, ImmixHybridCopyContext};
use mmtk::policy::immix::defrag::Histogram;
use mmtk::policy::immix::immixspace::{
    DefragInputs, ImmixSpace, ImmixSpaceArgs, PlanCreateSpaceArgs, SideMetadataSpec, TraceKind,
};
use mmtk::policy::immix::line::Line;
use mmtk::policy::immix::rc_work::{ChunkMarkZeroing, ChunkRange, SweepBlocksAfterDecs, SweepDeadCycles};
use mmtk::util::address::{Address, ObjectReference};
use mmtk::util::linear_scan::Chunk;
use mmtk::util::log_bit::UnlogBitsOperation;
use mmtk::util::metadata::{HeapMetadata, SpaceKind};
use mmtk::util::rc::RefCountHelper;
use mmtk::util::vm::{MetadataLocation, ObjectModel, VmConfig};
use mmtk::LazySweepingJobsCounter;

const START: usize = 0x4000_0000;

fn vm() -> VmConfig {
    VmConfig {
        header_forwarding_sentinel: false,
        heap_start: START,
        forwarding_pointer: MetadataLocation::InHeader { bit_offset: 0 },
        forwarding_bits: MetadataLocation::OnSide,
        mark_bit: MetadataLocation::OnSide,
        pinning_bit: Some(MetadataLocation::OnSide),
        single_tracer: false,
    }
}

fn env(names: &[&str]) -> Environment {
    Environment {
        vars: names.iter().map(|name| (name.to_string(), Some("1".to_string()))).collect(),
    }
}

fn heap() -> HeapMetadata {
    let mut meta = HeapMetadata::new(Address(START), 2);
    meta.set_space(0, SpaceKind::Immix);
    meta.set_space(1, SpaceKind::Immix);
    meta
}

fn space(rc_enabled: bool) -> ImmixSpace {
    ImmixSpace::new(
        PlanCreateSpaceArgs {
            unlog_traced_object: !rc_enabled,
            needs_log_bit: true,
            rc_enabled,
            force_non_moving: false,
            chunks: 2,
            num_workers: 2,
            always_defrag: false,
            defrag_every_block: false,
            track_frees: true,
            vm: vm(),
        },
        ImmixSpaceArgs { mixed_age: false, never_move_objects: rc_enabled },
    )
}

fn object(offset: usize) -> ObjectReference {
    ObjectReference(Address(START + offset))
}

fn block(n: usize) -> Block {
    Block(Address(START + n * 32768))
}

fn line(n: usize) -> Line {
    Line(Address(START + n * 256))
}

#[test]
fn block_states_have_bytes() {
    assert_eq!(u8::from(BlockState::Unallocated), 0);
    assert_eq!(u8::from(BlockState::Unmarked), 255);
    assert_eq!(u8::from(BlockState::Marked), 254);
    assert_eq!(u8::from(BlockState::Reusable { unavailable_lines: 17 }), 17);
    for byte in 0..=255u8 {
        assert_eq!(u8::from(BlockState::from(byte)), byte);
    }
    assert!(BlockState::from(1).is_reusable());
    assert!(!BlockState::Marked.is_reusable());
}

#[test]
fn a_block_is_initialized_and_deinitialized() {
    let mut meta = heap();
    let b = block(3);
    assert_eq!(b.get_state(&meta), BlockState::Unallocated);
    b.init(&mut meta, false);
    assert_eq!(b.get_state(&meta), BlockState::Unmarked);
    b.init(&mut meta, true);
    assert_eq!(b.get_state(&meta), BlockState::Marked);
    b.deinit(&mut meta);
    assert_eq!(b.get_state(&meta), BlockState::Unallocated);
    assert_eq!(block(2).get_state(&meta), BlockState::Unallocated);
}

#[test]
fn a_reused_block_without_counts_starts_as_a_clean_one() {
    let s = space(false);
    for reuse in [false, true] {
        for copy in [false, true] {
            let mut meta = heap();
            block(3).set_as_defrag_source(&mut meta, true);
            block(3).init_rc(&mut meta, copy, reuse, &s);
            assert!(!block(3).is_defrag_source(&meta));
            assert_eq!(block(3).get_holes(&meta), 0);
            let state = if copy { BlockState::Marked } else { BlockState::Unmarked };
            assert_eq!(block(3).get_state(&meta), state);
        }
    }
}

#[test]
fn blocks_are_aligned() {
    assert_eq!(Block::from_unaligned_address(Address(START + 40000)), block(1));
    assert_eq!(block(1).end(), Address(START + 65536));
    assert_eq!(block(130).chunk(), Chunk(Address(START + 4194304)));
    assert_eq!(block(1).start_line(), line(128));
    assert_eq!(block(1).end_line(), line(256));
    assert_eq!(block(0).lines().len(), 128);
    assert_eq!(line(130).block(), block(1));
    assert_eq!(line(130).get_index_within_block(), 2);
}

#[test]
fn holes_and_defrag_sources_share_a_table() {
    let mut meta = heap();
    let b = block(0);
    b.set_holes(&mut meta, 9);
    assert_eq!(b.get_holes(&meta), 9);
    assert!(!b.is_defrag_source(&meta));
    b.set_as_defrag_source(&mut meta, true);
    assert!(b.is_defrag_source(&meta));
    b.set_as_defrag_source(&mut meta, false);
    assert!(!b.is_defrag_source(&meta));
}

#[test]
fn a_block_belongs_to_the_phase_that_it_is_stamped_with() {
    let mut meta = heap();
    let mut s = space(true);
    let b = block(4);
    for phase in 1..=6u8 {
        assert_eq!(Block::global_phase_epoch(&meta), phase);
        assert!(!b.is_nursery_or_reusing(&meta));
        b.update_phase_epoch(&mut meta);
        assert_eq!(b.phase_epoch(&meta), phase);
        assert!(b.is_nursery_or_reusing(&meta));
        assert!(b.is_nursery(&meta));
        assert!(!b.is_reusing(&meta));
        Block::update_global_phase_epoch(&mut meta, &mut s);
    }
}

#[test]
fn a_block_is_logged_once() {
    let mut meta = heap();
    assert!(block(5).log(&mut meta));
    assert!(!block(5).log(&mut meta));
    block(5).unlog(&mut meta);
    assert!(block(5).log(&mut meta));
}

#[test]
fn the_phase_epoch_wraps() {
    let mut meta = heap();
    let mut s = space(true);
    let first = Block::global_phase_epoch(&meta);
    for _ in 0..254 {
        Block::update_global_phase_epoch(&mut meta, &mut s);
        assert!(Block::global_phase_epoch(&meta) >= 1);
        assert!(Block::global_phase_epoch(&meta) <= 254);
    }
    assert_eq!(Block::global_phase_epoch(&meta), first);
}

#[test]
fn a_block_without_marked_lines_is_released() {
    let mut meta = heap();
    let mut s = space(false);
    let b = block(0);
    b.init(&mut meta, false);
    let mut histogram = Histogram::new();
    assert!(b.sweep(&mut meta, &mut s, &mut histogram, Some(1)));
    assert_eq!(b.get_state(&meta), BlockState::Unallocated);
    assert_eq!(s.reusable_blocks.len(), 0);
}

#[test]
fn a_block_with_some_marked_lines_becomes_reusable() {
    let mut meta = heap();
    let mut s = space(false);
    let b = block(0);
    b.init(&mut meta, false);
    for n in [0, 1, 5, 127] {
        line(n).mark(&mut meta, 1);
    }
    let mut histogram = Histogram::new();
    assert!(!b.sweep(&mut meta, &mut s, &mut histogram, Some(1)));
    assert_eq!(b.get_state(&meta), BlockState::Reusable { unavailable_lines: 4 });
    assert_eq!(b.get_holes(&meta), 2);
    assert_eq!(s.reusable_blocks.len(), 1);
}

#[test]
fn a_block_with_all_lines_marked_becomes_unmarked() {
    let mut meta = heap();
    let mut s = space(false);
    let b = block(0);
    b.init(&mut meta, true);
    for n in 0..128 {
        line(n).mark(&mut meta, 1);
    }
    let mut histogram = Histogram::new();
    assert!(!b.sweep(&mut meta, &mut s, &mut histogram, Some(1)));
    assert_eq!(b.get_state(&meta), BlockState::Unmarked);
    assert_eq!(s.reusable_blocks.len(), 0);
}

#[test]
fn objects_mark_the_lines_that_they_touch() {
    let mut meta = heap();
    assert_eq!(Line::mark_lines_for_object(&mut meta, object(250), 20, 1), 2);
    assert!(line(0).is_marked(&meta, 1));
    assert!(line(1).is_marked(&meta, 1));
    assert!(!line(2).is_marked(&meta, 1));
    assert_eq!(Line::mark_lines_for_object(&mut meta, object(250), 20, 1), 0);
}

#[test]
fn an_object_is_marked_and_queued_once() {
    let mut meta = heap();
    let mut s = space(false);
    let mut objects = ObjectModel::new();
    let o = object(64);
    objects.define(o, 48, Vec::new());
    let mut queue = Vec::new();
    assert_eq!(s.trace_object_without_moving(&mut meta, &objects, &mut queue, o), o);
    assert_eq!(queue, vec![o]);
    assert!(s.is_marked(&meta, o));
    assert_eq!(s.major_live_bytes(), 48);
    assert_eq!(meta.log_bit.load(8), 1);
    s.trace_object_without_moving(&mut meta, &objects, &mut queue, o);
    assert_eq!(queue, vec![o]);
    assert_eq!(s.major_live_bytes(), 48);
}

#[test]
fn an_object_of_a_source_block_is_copied_once() {
    let mut meta = heap();
    let mut s = space(false);
    let objects = ObjectModel::new();
    let (o, new) = (object(64), object(40000));
    block(0).init(&mut meta, false);
    block(0).set_as_defrag_source(&mut meta, true);
    let mut queue = Vec::new();
    let copied =
        s.trace_object(&mut meta, &objects, &mut queue, o, TraceKind::Defrag, |_| (new, 24));
    assert_eq!(copied, new);
    assert_eq!(queue, vec![new]);
    assert!(s.is_marked(&meta, new));
    assert_eq!(s.major_live_bytes(), 24);
    let again = s.trace_object(&mut meta, &objects, &mut queue, o, TraceKind::Defrag, |_| {
        panic!("copied twice")
    });
    assert_eq!(again, new);
    assert_eq!(queue, vec![new]);
    assert_eq!(s.get_forwarded_object(&meta, o), Some(new));
    assert!(s.is_live(&meta, o));
}

#[test]
fn a_pinned_object_stays() {
    let mut meta = heap();
    let mut s = space(false);
    let objects = ObjectModel::new();
    let o = object(64);
    block(0).init(&mut meta, false);
    block(0).set_as_defrag_source(&mut meta, true);
    assert!(s.pin_object(&mut meta, o));
    assert!(!s.pin_object(&mut meta, o));
    assert!(s.is_object_pinned(&meta, o));
    let mut queue = Vec::new();
    let result = s.trace_object(&mut meta, &objects, &mut queue, o, TraceKind::Defrag, |_| {
        panic!("a pinned object moved")
    });
    assert_eq!(result, o);
    assert_eq!(queue, vec![o]);
    assert_eq!(block(0).get_state(&meta), BlockState::Marked);
    assert!(s.unpin_object(&mut meta, o));
    assert!(!s.unpin_object(&mut meta, o));
}

#[test]
fn a_fast_trace_moves_nothing() {
    let mut meta = heap();
    let mut s = space(false);
    let objects = ObjectModel::new();
    let o = object(64);
    block(0).init(&mut meta, false);
    block(0).set_as_defrag_source(&mut meta, true);
    let mut queue = Vec::new();
    let result = s.trace_object(&mut meta, &objects, &mut queue, o, TraceKind::Fast, |_| {
        panic!("moved")
    });
    assert_eq!(result, o);
    assert!(ImmixSpace::may_move_objects(TraceKind::Defrag));
    assert!(!ImmixSpace::may_move_objects(TraceKind::Fast));
}

#[test]
fn a_collection_frees_what_was_not_marked() {
    let mut meta = heap();
    let mut s = space(false);
    let mut objects = ObjectModel::new();
    assert_eq!(s.get_clean_block(&mut meta, block(0).start(), false), Some(block(0)));
    assert_eq!(s.get_clean_block(&mut meta, block(1).start(), false), Some(block(1)));
    assert_eq!(s.get_clean_block(&mut meta, block(128).start(), false), Some(block(128)));
    assert_eq!(s.get_clean_block(&mut meta, Address(0), false), None);
    let live = object(512);
    objects.define(live, 300, Vec::new());

    let work = s.prepare(&meta, true, Some(7), UnlogBitsOperation::NoOp, false);
    assert_eq!(work.prepare.len(), 2);
    assert!(work.clear_vo_bits.is_empty());
    for packet in &work.prepare {
        packet.do_work(&mut meta, &s);
    }
    assert_eq!(s.line_mark_state, 2);

    let mut queue = Vec::new();
    s.trace_object_without_moving(&mut meta, &objects, &mut queue, live);
    s.post_scan_object(&mut meta, &objects, live);

    let mut tasks = s.release(&meta, true, UnlogBitsOperation::NoOp);
    assert_eq!(tasks.packets.len(), 2);
    assert_eq!(tasks.epilogue.counter, 2);
    for packet in &tasks.packets {
        packet.do_work(&mut meta, &mut s, false, &mut tasks.epilogue);
    }
    assert_eq!(tasks.epilogue.counter, 0);
    assert_eq!(block(0).get_state(&meta), BlockState::Reusable { unavailable_lines: 2 });
    assert_eq!(block(1).get_state(&meta), BlockState::Unallocated);
    assert_eq!(block(128).get_state(&meta), BlockState::Unallocated);
    assert_eq!(s.post_sweep_fragmentation(), (1, 1));
    assert_eq!(s.chunk_map.all_chunks(&meta), vec![Chunk(Address(START))]);

    assert_eq!(s.get_reusable_block(&mut meta, false), Some(block(0)));
    assert_eq!(s.get_reusable_block(&mut meta, false), None);
    let (first, limit) = s.get_next_available_lines(&meta, line(0)).unwrap();
    assert_eq!((first, limit), (line(0), line(2)));
    let (first, limit) = s.get_next_available_lines(&meta, line(2)).unwrap();
    assert_eq!((first, limit), (line(4), line(128)));
}

#[test]
fn a_deferred_sweep_hands_the_same_packets_out() {
    let mut meta = heap();
    let mut s = space(false);
    s.get_clean_block(&mut meta, block(0).start(), false);
    let tasks = s.release_deferred_sweep(&meta, true, UnlogBitsOperation::NoOp);
    assert_eq!(
        tasks.packets,
        vec![SweepChunk { chunk: Chunk(Address(START)), unlog_bits_op: UnlogBitsOperation::NoOp }]
    );
    assert_eq!(tasks.epilogue, FlushPageResource { counter: 1 });
    assert_eq!(s.get_pages_allocated(), 0);
}

#[test]
fn blocks_with_many_holes_become_sources() {
    let mut meta = heap();
    let mut s = space(false);
    s.get_clean_block(&mut meta, block(0).start(), false);
    s.get_clean_block(&mut meta, block(1).start(), false);
    block(0).set_holes(&mut meta, 10);
    block(1).set_holes(&mut meta, 3);
    s.decide_whether_to_defrag(false, true, 1, false, false, |_| true);
    let work = s.prepare(&meta, true, Some(5), UnlogBitsOperation::BulkClear, false);
    assert_eq!(
        work.prepare,
        vec![PrepareBlockState {
            chunk: Chunk(Address(START)),
            defrag_threshold: Some(5),
            compact_all: false,
            unlog_bits_op: UnlogBitsOperation::BulkClear,
        }]
    );
    work.prepare[0].do_work(&mut meta, &s);
    assert!(block(0).is_defrag_source(&meta));
    assert!(!block(1).is_defrag_source(&meta));
    assert!(s.end_of_gc());
    assert!(!s.end_of_gc());
}

#[test]
fn a_compaction_empties_every_block() {
    let mut meta = heap();
    let mut s = space(false);
    s.get_clean_block(&mut meta, block(0).start(), false);
    s.request_compact_all();
    s.decide_whether_to_defrag(false, true, 1, false, false, |_| true);
    let work = s.prepare(&meta, true, Some(5), UnlogBitsOperation::NoOp, false);
    assert!(work.prepare[0].compact_all);
    work.prepare[0].do_work(&mut meta, &s);
    assert!(block(0).is_defrag_source(&meta));
    assert!(s.madvise_freed_this_gc);
}

#[test]
fn a_compaction_is_forced_once() {
    let meta = heap();
    let mut s = space(false);
    assert!(!s.decide_whether_to_defrag(false, true, 1, false, false, |_| false));
    s.request_compact_all();
    assert!(!s.end_of_gc());
    assert!(s.defrag.compact_all_active());
    assert!(s.decide_whether_to_defrag(false, true, 1, false, false, |_| false));
    s.prepare(&meta, true, Some(5), UnlogBitsOperation::NoOp, false);
    assert!(s.madvise_freed_this_gc);
    assert!(s.end_of_gc());
    assert!(!s.defrag.compact_all_active());
    assert!(s.decide_whether_to_defrag(false, true, 1, false, false, |_| true));
    s.prepare(&meta, true, Some(5), UnlogBitsOperation::NoOp, false);
    assert!(!s.madvise_freed_this_gc);
}

#[test]
fn a_space_that_cannot_move_objects_is_not_compacted() {
    let mut s = space(true);
    s.request_compact_all();
    assert!(!s.decide_whether_to_defrag(false, true, 1, false, false, |_| false));
}

#[test]
fn the_decision_to_defragment_sees_its_inputs() {
    let mut s = space(false);
    let decided = s.decide_whether_to_defrag(true, false, 4, true, true, |inputs| {
        inputs
            == DefragInputs {
                defrag_enabled: true,
                emergency_collection: true,
                collect_whole_heap: false,
                collection_attempts: 4,
                user_triggered_collection: true,
                exhausted_reusable_space: true,
                full_heap_system_gc: true,
                always_defrag: false,
                rc_enabled: false,
            }
    });
    assert!(decided);
    assert!(s.in_defrag());
    assert!(space(true).is_last_gc_exhaustive(false));
    assert!(!s.is_last_gc_exhaustive(false));
    assert!(s.is_last_gc_exhaustive(true));
}

#[test]
fn tables_are_registered() {
    assert_eq!(
        ImmixSpace::side_metadata_specs(&vm(), false).len(),
        6
    );
    let counted = ImmixSpace::side_metadata_specs(&vm(), true);
    assert!(counted.contains(&SideMetadataSpec::RcStraddleLines));
    assert!(!ImmixSpace::side_metadata_specs(&vm(), false)
        .contains(&SideMetadataSpec::RcStraddleLines));
}

#[test]
fn valid_object_bits_are_set() {
    let mut meta = heap();
    let s = space(false);
    s.initialize_object_metadata(&mut meta, object(80));
    assert_eq!(meta.vo_bit.load(10), 1);
    assert_eq!(meta.vo_bit.load(9), 0);
}

#[test]
fn copy_contexts_choose_their_allocator() {
    let mut s = space(false);
    let mut context = ImmixHybridCopyContext::new();
    let address = context.alloc_copy(&s, |a| {
        (ImmixAllocator { cursor: Address(a.cursor.0 + 16), ..a }, a.cursor)
    });
    assert_eq!(address, Address(0));
    assert_eq!(context.copy_allocator.cursor, Address(16));
    assert_eq!(context.defrag_allocator.cursor, Address(0));
    s.decide_whether_to_defrag(false, true, 1, false, false, |_| true);
    context.alloc_copy(&s, |a| {
        (ImmixAllocator { cursor: Address(a.cursor.0 + 32), ..a }, a.cursor)
    });
    assert_eq!(context.copy_allocator.cursor, Address(16));
    assert_eq!(context.defrag_allocator.cursor, Address(32));
    context.release();
    assert_eq!(context.defrag_allocator.cursor, Address(0));

    let mut simple = ImmixCopyContext::new();
    assert!(simple.allocator.copy);
    simple.alloc_copy(|a| (ImmixAllocator { limit: Address(8), ..a }, a.cursor));
    assert_eq!(simple.allocator.limit, Address(8));
    simple.prepare();
    assert_eq!(simple.allocator.limit, Address(0));
}

#[test]
fn nursery_blocks_without_counts_are_freed() {
    let mut meta = heap();
    let mut s = space(true);
    let rc = RefCountHelper;
    s.get_clean_block(&mut meta, block(0).start(), false);
    s.get_clean_block(&mut meta, block(1).start(), false);
    let _ = rc.inc(&mut meta, object(32768 + 64));
    block(1).set_as_in_place_promoted(&mut meta, &mut s);
    s.rc_sweep_nursery_blocks(&mut meta, &env(&[]));
    assert_eq!(block(0).get_state(&meta), BlockState::Unallocated);
    assert_ne!(block(1).get_state(&meta), BlockState::Unallocated);
    assert_eq!(rc.count(&meta, object(32768 + 64)), 1);
    assert_eq!(s.num_clean_blocks_released_young, 1);
}

#[test]
fn a_nursery_sweep_may_be_held_back() {
    let mut meta = heap();
    let mut s = space(true);
    s.get_clean_block(&mut meta, block(0).start(), false);
    assert!(block(0).is_nursery(&meta));
    s.rc_sweep_nursery_blocks(&mut meta, &env(&["MMTK_RC_NO_FREE"]));
    assert_eq!(s.num_clean_blocks_released_young, 0);
    s.rc_sweep_nursery_blocks(&mut meta, &env(&[]));
    assert_eq!(s.num_clean_blocks_released_young, 0);
}

#[test]
fn possibly_dead_blocks_are_swept_after_decrements() {
    let mut meta = heap();
    let mut s = space(true);
    let rc = RefCountHelper;
    for n in 0..2 {
        s.get_clean_block(&mut meta, block(n).start(), false);
        block(n).set_as_in_place_promoted(&mut meta, &mut s);
    }
    s.rc_sweep_nursery_blocks(&mut meta, &env(&[]));
    let _ = rc.inc(&mut meta, object(64));
    s.add_to_possibly_dead_mature_blocks(&mut meta, block(0), false);
    s.add_to_possibly_dead_mature_blocks(&mut meta, block(1), false);
    s.add_to_possibly_dead_mature_blocks(&mut meta, block(1), false);
    Block::update_global_phase_epoch(&mut meta, &mut s);
    let packets: Vec<SweepBlocksAfterDecs> =
        s.schedule_rc_block_sweeping_tasks(&LazySweepingJobsCounter::new());
    for packet in &packets {
        packet.do_work(&mut meta, &mut s, true, true);
    }
    assert_ne!(block(0).get_state(&meta), BlockState::Unallocated);
    assert_eq!(block(1).get_state(&meta), BlockState::Unallocated);
    assert_eq!(s.num_clean_blocks_released_mature, 1);
}

#[test]
fn a_block_of_the_nursery_is_freed_once() {
    let mut meta = heap();
    let mut s = space(true);
    s.get_clean_block(&mut meta, block(0).start(), false);
    assert!(!block(0).rc_sweep_mature(&mut meta, &mut s, true, true));
    s.rc_sweep_nursery_blocks(&mut meta, &env(&[]));
    assert_eq!(s.num_clean_blocks_released_young, 1);
    assert!(!block(0).rc_sweep_mature(&mut meta, &mut s, true, true));
}

#[test]
fn a_scanned_object_is_not_in_a_hole() {
    let mut meta = heap();
    let s = space(false);
    let mut objects = ObjectModel::new();
    objects.define(object(256), 600, Vec::new());
    s.post_scan_object(&mut meta, &objects, object(256));
    assert_eq!(s.get_next_available_lines(&meta, line(0)), Some((line(0), line(1))));
    assert_eq!(s.get_next_available_lines(&meta, line(1)), Some((line(4), line(128))));
}

#[test]
fn a_block_that_is_in_use_is_not_swept() {
    let mut meta = heap();
    let mut s = space(true);
    s.get_clean_block(&mut meta, block(0).start(), false);
    block(0).set_as_in_place_promoted(&mut meta, &mut s);
    assert!(block(0).is_reusing(&meta));
    assert!(!block(0).rc_sweep_mature(&mut meta, &mut s, false, false));
    Block::update_global_phase_epoch(&mut meta, &mut s);
    assert!(block(0).rc_sweep_mature(&mut meta, &mut s, false, false));
    assert!(!block(0).rc_sweep_mature(&mut meta, &mut s, false, false));
}

#[test]
fn dead_cycles_are_found_by_marks() {
    let mut meta = heap();
    let mut s = space(true);
    let rc = RefCountHelper;
    let mut objects = ObjectModel::new();
    s.get_clean_block(&mut meta, block(0).start(), false);
    block(0).set_as_in_place_promoted(&mut meta, &mut s);
    s.rc_sweep_nursery_blocks(&mut meta, &env(&[]));
    let (marked, unmarked) = (object(64), object(256));
    for o in [marked, unmarked] {
        objects.define(o, 16, Vec::new());
        let _ = rc.inc(&mut meta, o);
    }
    assert!(s.attempt_mark_rc(&mut meta, marked));
    assert!(!s.attempt_mark_rc(&mut meta, marked));
    let packets: Vec<SweepDeadCycles> = s.schedule_dead_cycle_sweep(&meta);
    assert_eq!(packets.len(), 1);
    packets[0].do_work(&mut meta, &objects, &mut s);
    assert_eq!(rc.count(&meta, marked), 1);
    assert_eq!(rc.count(&meta, unmarked), 0);
    assert_ne!(block(0).get_state(&meta), BlockState::Unallocated);

    let zeroing = s.schedule_mark_table_zeroing(&meta);
    assert_eq!(
        zeroing,
        vec![ChunkMarkZeroing {
            chunks: ChunkRange {
                start: Chunk(Address(START)),
                end: Chunk(Address(START + 4194304)),
            }
        }]
    );
    zeroing[0].do_work(&mut meta, &s);
    assert!(!s.is_marked(&meta, marked));
}

#[test]
fn counted_spaces_hand_out_no_reusable_blocks() {
    let mut meta = heap();
    let mut s = space(true);
    assert_eq!(s.get_reusable_block(&mut meta, false), None);
}
