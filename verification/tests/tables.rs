use mmtk::policy::immix::line::Line;
use mmtk::util::address::{Address, ObjectReference};
use mmtk::util::heap::chunk_map::ChunkMap;
use mmtk::util::linear_scan::Chunk;
use mmtk::util::log_bit::UnlogBitsOperation;
use mmtk::util::metadata::{HeapMetadata, SpaceKind, MAX_REF_COUNT};
use mmtk::util::object_forwarding;
use mmtk::util::object_forwarding::{BEING_FORWARDED, FORWARDED, FORWARDING_NOT_TRIGGERED_YET};
use mmtk::util::rc::RefCountHelper;
use mmtk::util::side_metadata::SideMetadataTable;
use mmtk::util::vm::{MetadataLocation, ObjectModel, Slot, VmConfig};

const START: usize = 0x4000_0000;

fn heap() -> HeapMetadata {
    let mut meta = HeapMetadata::new(Address(START), 2);
    meta.set_space(0, SpaceKind::Immix);
    meta
}

fn object(offset: usize) -> ObjectReference {
    ObjectReference(Address(START + offset))
}

fn vm(pointer: MetadataLocation, bits: MetadataLocation, single_tracer: bool) -> VmConfig {
    VmConfig {
        header_forwarding_sentinel: false,
        heap_start: START,
        forwarding_pointer: pointer,
        forwarding_bits: bits,
        mark_bit: MetadataLocation::OnSide,
        pinning_bit: None,
        single_tracer,
    }
}

#[test]
fn addresses_have_positions() {
    let meta = heap();
    let a = Address(START + 4194304 + 32768 + 256 + 8);
    assert_eq!(meta.cell(a), 524288 + 4096 + 32 + 1);
    assert_eq!(meta.line(a), 16384 + 128 + 1);
    assert_eq!(meta.block(a), 128 + 1);
    assert_eq!(meta.chunk(a), 1);
    assert!(meta.in_heap(a));
    assert!(!meta.in_heap(Address(START - 1)));
    assert!(!meta.in_heap(Address(START + 2 * 4194304)));
    assert_eq!(meta.space_of(a), SpaceKind::Unmapped);
    assert_eq!(meta.space_of(Address(START)), SpaceKind::Immix);
    assert_eq!(meta.space_of(Address(0)), SpaceKind::Unmapped);
    assert!(meta.is_in_mmtk_spaces(object(0)));
    assert!(!meta.is_in_mmtk_spaces(ObjectReference(a)));
}

#[test]
fn a_zero_address_is_no_object() {
    assert_eq!(ObjectReference::from_raw_address(Address(0)), None);
    assert_eq!(
        ObjectReference::from_raw_address(Address(8)),
        Some(ObjectReference(Address(8)))
    );
}

#[test]
fn table_entries_are_exchanged_only_if_they_match() {
    let mut table = SideMetadataTable::new(4);
    assert_eq!(table.compare_exchange(1, 0, 7), Ok(0));
    assert_eq!(table.compare_exchange(1, 0, 9), Err(7));
    assert_eq!(table.load(1), 7);
    assert_eq!(table.fetch_update(1, |x| if x == 7 { Some(8) } else { None }), Ok(7));
    assert_eq!(table.fetch_update(1, |x| if x == 7 { Some(9) } else { None }), Err(8));
    assert_eq!(table.load(1), 8);
    table.fill(2, 4, 5);
    assert_eq!(table.load(2), 5);
    assert!(table.is_zero(0, 1));
    assert!(!table.is_zero(0, 2));
    assert!(table.is_zero(2, 2));
}

#[test]
fn counts_go_up_and_down() {
    let mut meta = heap();
    let rc = RefCountHelper;
    let o = object(64);
    assert!(rc.is_dead(&meta, o));
    assert_eq!(rc.inc(&mut meta, o), Ok(0));
    assert_eq!(rc.inc(&mut meta, o), Ok(1));
    assert_eq!(rc.count(&meta, o), 2);
    assert_eq!(rc.dec(&mut meta, o), Ok(2));
    assert_eq!(rc.dec(&mut meta, o), Ok(1));
    assert_eq!(rc.dec(&mut meta, o), Err(0));
    assert!(rc.is_dead(&meta, o));
}

#[test]
fn a_stuck_count_stays() {
    let mut meta = heap();
    let rc = RefCountHelper;
    let o = object(64);
    assert_eq!(rc.inc(&mut meta, o), Ok(0));
    assert_eq!(rc.inc(&mut meta, o), Ok(1));
    assert_eq!(rc.inc(&mut meta, o), Ok(2));
    assert_eq!(rc.count(&meta, o), MAX_REF_COUNT);
    assert!(rc.is_stuck(&meta, o));
    assert_eq!(rc.inc(&mut meta, o), Err(3));
    assert_eq!(rc.dec(&mut meta, o), Err(3));
    assert_eq!(rc.count(&meta, o), 3);
    assert!(rc.is_dead_or_stuck(&meta, o));
    let p = object(128);
    assert_eq!(rc.stick(&mut meta, p), Ok(0));
    assert!(rc.is_stuck(&meta, p));
}

#[test]
fn counting_one_object_leaves_its_neighbours_alone() {
    let mut meta = heap();
    let rc = RefCountHelper;
    let _ = rc.inc(&mut meta, object(64));
    assert_eq!(rc.count(&meta, object(56)), 0);
    assert_eq!(rc.count(&meta, object(72)), 0);
}

#[test]
fn objects_that_cover_lines_mark_them() {
    let mut meta = heap();
    let rc = RefCountHelper;
    let mut objects = ObjectModel::new();
    let o = object(128);
    objects.define(o, 1000, Vec::new());
    rc.mark_straddle_object(&mut meta, &objects, o);
    let line = |n: usize| Line(Address(START + n * 256));
    assert!(!rc.is_straddle_line(&meta, line(0)));
    assert!(rc.is_straddle_line(&meta, line(1)));
    assert!(rc.is_straddle_line(&meta, line(2)));
    assert!(rc.is_straddle_line(&meta, line(3)));
    assert!(!rc.is_straddle_line(&meta, line(4)));
    assert!(rc.address_is_in_straddle_line(&meta, Address(START + 512)));
    assert!(!rc.address_is_in_straddle_line(&meta, Address(START + 700)));
    rc.unmark_straddle_object(&mut meta, &objects, o);
    for n in 0..5 {
        assert!(!rc.is_straddle_line(&meta, line(n)));
    }
}

#[test]
fn the_buffer_of_increments_is_counted() {
    let mut meta = heap();
    let rc = RefCountHelper;
    rc.increase_inc_buffer_size(&mut meta, 5);
    rc.increase_inc_buffer_size(&mut meta, usize::MAX);
    assert_eq!(rc.inc_buffer_size(&meta), usize::MAX);
    rc.reset_inc_buffer_size(&mut meta);
    assert_eq!(rc.inc_buffer_size(&meta), 0);
}

#[test]
fn a_forwarded_object_is_found_with_bits_on_the_side() {
    let mut meta = heap();
    let vm = vm(MetadataLocation::InHeader { bit_offset: 0 }, MetadataLocation::OnSide, false);
    let (o, new) = (object(64), object(4096));
    assert_eq!(
        object_forwarding::attempt_to_forward(&vm, &mut meta, o),
        FORWARDING_NOT_TRIGGERED_YET
    );
    assert_eq!(object_forwarding::get_forwarding_status(&vm, &meta, o), BEING_FORWARDED);
    assert_eq!(object_forwarding::attempt_to_forward(&vm, &mut meta, o), BEING_FORWARDED);
    assert_eq!(object_forwarding::set_forwarded(&vm, &mut meta, o, new), new);
    assert!(object_forwarding::is_forwarded(&vm, &meta, o));
    assert_eq!(object_forwarding::read_forwarding_pointer(&vm, &meta, o), new);
    assert_eq!(
        object_forwarding::spin_and_get_forwarded_object(&vm, &meta, o, FORWARDED),
        new
    );
    assert_eq!(object_forwarding::forwarding_info(&vm, &meta, o), (FORWARDED, Some(new)));
}

#[test]
fn a_forwarded_object_is_found_with_bits_in_the_word() {
    let mut meta = heap();
    let vm = vm(
        MetadataLocation::InHeader { bit_offset: 0 },
        MetadataLocation::InHeader { bit_offset: 56 },
        false,
    );
    assert_eq!(object_forwarding::forwarding_bits_offset_in_forwarding_pointer(&vm), Some(56));
    let (o, new) = (object(64), object(4096));
    assert_eq!(object_forwarding::attempt_to_forward(&vm, &mut meta, o), 0);
    object_forwarding::set_forwarded(&vm, &mut meta, o, new);
    assert_eq!(meta.forwarding_word[8], (START as u64 + 4096) | (3u64 << 56));
    assert_eq!(object_forwarding::read_forwarding_pointer(&vm, &meta, o), new);
}

#[test]
fn a_claim_that_is_given_up_can_be_made_again() {
    let mut meta = heap();
    let vm = vm(MetadataLocation::OnSide, MetadataLocation::OnSide, false);
    let o = object(64);
    object_forwarding::attempt_to_forward(&vm, &mut meta, o);
    object_forwarding::clear_forwarding_bits(&vm, &mut meta, o);
    assert!(!object_forwarding::is_forwarded_or_being_forwarded(&vm, &meta, o));
    assert_eq!(
        object_forwarding::spin_and_get_forwarded_object(&vm, &meta, o, BEING_FORWARDED),
        o
    );
}

#[test]
fn a_single_tracer_makes_no_claim() {
    let mut meta = heap();
    let vm = vm(MetadataLocation::OnSide, MetadataLocation::OnSide, true);
    let o = object(64);
    assert_eq!(object_forwarding::attempt_to_forward(&vm, &mut meta, o), 0);
    assert_eq!(object_forwarding::get_forwarding_status(&vm, &meta, o), 0);
}

#[test]
fn a_header_word_in_the_heap_tells_that_an_object_was_forwarded() {
    let mut meta = heap();
    let config = VmConfig {
        header_forwarding_sentinel: true,
        ..vm(MetadataLocation::InHeader { bit_offset: 0 }, MetadataLocation::OnSide, true)
    };
    let (o, new) = (object(64), object(4096));
    meta.forwarding_word[8] = 0x700;
    assert!(!object_forwarding::is_forwarded(&config, &meta, o));
    object_forwarding::set_forwarded(&config, &mut meta, o, new);
    assert!(object_forwarding::is_forwarded(&config, &meta, o));
    assert_eq!(meta.forwarding_bits.load(8), 0);
}

#[test]
fn a_copy_is_recorded_before_the_object_counts_as_forwarded() {
    let mut meta = heap();
    let vm = vm(MetadataLocation::OnSide, MetadataLocation::OnSide, false);
    let (o, new) = (object(64), object(4096));
    assert_eq!(object_forwarding::attempt_to_forward(&vm, &mut meta, o), 0);
    let mut recorded = Vec::new();
    let result = object_forwarding::forward_object(
        &vm,
        &mut meta,
        o,
        |from| {
            assert_eq!(from, o);
            new
        },
        |m: &mut HeapMetadata, copy| {
            assert!(!object_forwarding::is_forwarded(&vm, m, o));
            let index = m.cell(copy.0);
            m.vo_bit.store(index, 1);
            recorded.push(copy);
        },
    );
    assert_eq!(result, new);
    assert_eq!(recorded, vec![new]);
    assert_eq!(meta.vo_bit.load(meta.cell(new.0)), 1);
    assert!(object_forwarding::is_forwarded(&vm, &meta, o));
    assert_eq!(object_forwarding::read_forwarding_pointer(&vm, &meta, o), new);
}

#[test]
fn a_written_pointer_is_read_back() {
    let vm = vm(
        MetadataLocation::InHeader { bit_offset: 0 },
        MetadataLocation::InHeader { bit_offset: 56 },
        false,
    );
    let mut meta = heap();
    let (o, new) = (object(64), object(4096));
    meta.forwarding_word[8] = 0x8000_0000_0000_0705;
    object_forwarding::attempt_to_forward(&vm, &mut meta, o);
    object_forwarding::write_forwarding_pointer(&vm, &mut meta, o, new);
    assert_eq!(object_forwarding::read_forwarding_pointer(&vm, &meta, o), new);
    assert_eq!(object_forwarding::get_forwarding_status(&vm, &meta, o), BEING_FORWARDED);
    assert_eq!(meta.forwarding_word[8], 0x8200_0000_0000_0005 | (START as u64 + 4096));
}

#[test]
fn all_counts_of_an_object_are_looked_at() {
    let mut meta = heap();
    let mut objects = ObjectModel::new();
    let o = object(64);
    objects.define(o, 64, Vec::new());
    let _ = RefCountHelper.inc(&mut meta, object(128));
    assert!(RefCountHelper.has_zero_ref_counts(&meta, &objects, o));
    RefCountHelper.assert_zero_ref_count(&meta, &objects, o);
    let _ = RefCountHelper.inc(&mut meta, object(112));
    assert!(!RefCountHelper.has_zero_ref_counts(&meta, &objects, o));
}

#[test]
fn allocated_chunks_are_listed_once_in_order() {
    let meta = heap();
    let mut map = ChunkMap::new(2);
    assert!(map.all_chunks(&meta).is_empty());
    let second = Chunk(Address(START + 4194304));
    map.set_allocated(&meta, second, true);
    map.set_allocated(&meta, Chunk(Address(START)), true);
    assert_eq!(map.all_chunks(&meta), vec![Chunk(Address(START)), second]);
    map.set_allocated(&meta, Chunk(Address(START)), false);
    assert_eq!(map.all_chunks(&meta), vec![second]);
}

#[test]
fn log_bits_are_set_and_cleared_in_bulk() {
    let mut meta = heap();
    let chunk = Chunk(Address(START));
    UnlogBitsOperation::BulkSet.execute(&mut meta, chunk);
    assert_eq!(meta.log_bit.load(0), 1);
    assert_eq!(meta.log_bit.load(524287), 1);
    assert_eq!(meta.log_bit.load(524288), 0);
    UnlogBitsOperation::NoOp.execute(&mut meta, chunk);
    assert_eq!(meta.log_bit.load(0), 1);
    UnlogBitsOperation::BulkClear.execute(&mut meta, chunk);
    assert_eq!(meta.log_bit.load(0), 0);
}

#[test]
fn slots_refer_to_objects() {
    let mut objects = ObjectModel::new();
    let slot = Slot(Address(START + 8));
    assert_eq!(objects.load(slot), None);
    objects.store(slot, object(64));
    assert_eq!(objects.load(slot), Some(object(64)));
    objects.define(object(0), 24, vec![slot]);
    assert_eq!(objects.get_current_size(object(0)), 24);
    assert_eq!(objects.iterate_fields(object(0)), vec![slot]);
    assert!(objects.iterate_fields(object(8)).is_empty());
}
