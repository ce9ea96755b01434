//! Forwarding state of objects that a copying collection moves.
//!
//! An object starts out with forwarding not triggered. A worker claims it, copies it, and writes
//! the forwarding pointer and the final state. Where the runtime keeps the forwarding bits in the
//! same word as the forwarding pointer, both are written at once. Where a single tracer runs and
//! every header word lies below the heap, a header word that is a heap address is itself the
//! final state, and the bits are not used.

use crate::util::address::{Address, ObjectReference};
use crate::util::constants::BITS_IN_WORD;
use crate::util::metadata::{HeapMetadata, MetadataView};
use crate::util::vm::{MetadataLocation, VmConfig};
use vstd::prelude::*;

verus! {

/// Forwarding has not been triggered.
pub const FORWARDING_NOT_TRIGGERED_YET: u8 = 0;

/// A worker is copying the object.
pub const BEING_FORWARDED: u8 = 2;

/// The object was copied.
pub const FORWARDED: u8 = 3;

/// The bits of a header word that hold the forwarding pointer, on a 64-bit target.
pub const FORWARDING_POINTER_MASK_64: u64 = 0x00ff_ffff_ffff_fff8;

/// The bits of a header word that hold the forwarding pointer, on a 32-bit target.
pub const FORWARDING_POINTER_MASK_32: u64 = 0xffff_fffc;

/// The bits of a header word that hold the forwarding pointer.
pub open spec fn pointer_mask() -> u64 {
    if usize::BITS == 64 {
        FORWARDING_POINTER_MASK_64
    } else {
        FORWARDING_POINTER_MASK_32
    }
}

/// The bits of a header word that hold the forwarding pointer.
fn forwarding_pointer_mask() -> (mask: u64)
    ensures
        mask == pointer_mask(),
{
    if usize::BITS == 64 {
        FORWARDING_POINTER_MASK_64
    } else {
        FORWARDING_POINTER_MASK_32
    }
}

/// Header words alone tell which objects were forwarded.
pub open spec fn sentinel_active(vm: VmConfig) -> bool {
    vm.header_forwarding_sentinel && vm.single_tracer
}

/// How far the forwarding bits are to the left within the word of the forwarding pointer, or
/// `None` if they are not in that word.
pub open spec fn bits_shift(vm: VmConfig) -> Option<int> {
    match (vm.forwarding_pointer, vm.forwarding_bits) {
        (
            MetadataLocation::InHeader { bit_offset: pointer },
            MetadataLocation::InHeader { bit_offset: bits },
        ) => if 0 <= bits - pointer < BITS_IN_WORD {
            Some(bits - pointer)
        } else {
            None
        },
        _ => None,
    }
}

/// The two forwarding bits at `shift` in a word.
pub open spec fn word_bits(word: u64, shift: u64) -> u8 {
    ((word >> shift) & 3u64) as u8
}

/// A word with its two forwarding bits at `shift` replaced.
pub open spec fn with_word_bits(word: u64, shift: u64, bits: u8) -> u64 {
    (word & !(3u64 << shift)) | ((bits as u64) << shift)
}

/// A word with the forwarding pointer replaced. A pointer in a header leaves the other bits alone.
pub open spec fn with_pointer(vm: VmConfig, word: u64, pointer: u64) -> u64 {
    match vm.forwarding_pointer {
        MetadataLocation::InHeader { .. } => (word & !pointer_mask()) | (pointer & pointer_mask()),
        MetadataLocation::OnSide => pointer,
    }
}

/// The forwarding status of an object.
pub open spec fn status(vm: VmConfig, m: MetadataView, address: int) -> u8 {
    let i = m.cell(address);
    if sentinel_active(vm) {
        if m.forwarding_word[i] >= vm.heap_start {
            FORWARDED
        } else {
            FORWARDING_NOT_TRIGGERED_YET
        }
    } else {
        match bits_shift(vm) {
            Some(shift) => word_bits(m.forwarding_word[i], shift as u64),
            None => m.forwarding_bits[i],
        }
    }
}

/// The tables with the forwarding bits of an object replaced.
pub open spec fn with_bits(vm: VmConfig, m: MetadataView, address: int, bits: u8) -> MetadataView {
    let i = m.cell(address);
    match bits_shift(vm) {
        Some(shift) => MetadataView {
            forwarding_word: m.forwarding_word.update(
                i,
                with_word_bits(m.forwarding_word[i], shift as u64, bits),
            ),
            ..m
        },
        None => MetadataView { forwarding_bits: m.forwarding_bits.update(i, bits), ..m },
    }
}

/// The object that the forwarding pointer of an object refers to.
pub open spec fn pointer_of(vm: VmConfig, m: MetadataView, address: int) -> ObjectReference {
    let word = m.forwarding_word[m.cell(address)];
    let pointer = match vm.forwarding_pointer {
        MetadataLocation::InHeader { .. } => word & pointer_mask(),
        MetadataLocation::OnSide => word,
    };
    ObjectReference(Address(pointer as usize))
}

/// The tables after the forwarding pointer of an object was written.
pub open spec fn pointer_written(
    vm: VmConfig,
    m: MetadataView,
    address: int,
    new: ObjectReference,
) -> MetadataView {
    let i = m.cell(address);
    MetadataView {
        forwarding_word: m.forwarding_word.update(
            i,
            with_pointer(vm, m.forwarding_word[i], new.0.0 as u64),
        ),
        ..m
    }
}

/// The tables after an object was forwarded to `new`.
pub open spec fn forwarded(
    vm: VmConfig,
    m: MetadataView,
    address: int,
    new: ObjectReference,
) -> MetadataView {
    let i = m.cell(address);
    match bits_shift(vm) {
        Some(shift) => MetadataView {
            forwarding_word: m.forwarding_word.update(
                i,
                (new.0.0 as u64) | ((FORWARDED as u64) << (shift as u64)),
            ),
            ..m
        },
        None => MetadataView {
            forwarding_word: m.forwarding_word.update(
                i,
                with_pointer(vm, m.forwarding_word[i], new.0.0 as u64),
            ),
            forwarding_bits: if sentinel_active(vm) {
                m.forwarding_bits
            } else {
                m.forwarding_bits.update(i, FORWARDED)
            },
            ..m
        },
    }
}

/// Whether header words alone tell which objects were forwarded.
fn header_sentinel_active(vm: &VmConfig) -> (active: bool)
    ensures
        active == sentinel_active(*vm),
{
    vm.header_forwarding_sentinel && vm.single_tracer
}

/// The status that the header word of an object tells.
fn sentinel_status(vm: &VmConfig, meta: &HeapMetadata, object: ObjectReference) -> (bits: u8)
    requires
        meta.wf(),
        meta@.in_heap(object.addr()),
        sentinel_active(*vm),
    ensures
        bits == status(*vm, meta@, object.addr()),
{
    let word: u64 = meta.forwarding_word[meta.cell(object.0)];
    if word >= vm.heap_start as u64 {
        FORWARDED
    } else {
        FORWARDING_NOT_TRIGGERED_YET
    }
}

/// How far the forwarding bits are to the left within the word of the forwarding pointer, or
/// `None` if the two cannot be written in one operation.
pub fn forwarding_bits_offset_in_forwarding_pointer(vm: &VmConfig) -> (shift: Option<u64>)
    ensures
        shift is Some == bits_shift(*vm) is Some,
        shift matches Some(s) ==> s == bits_shift(*vm)->0 && s < 64,
{
    match (vm.forwarding_pointer, vm.forwarding_bits) {
        (
            MetadataLocation::InHeader { bit_offset: pointer },
            MetadataLocation::InHeader { bit_offset: bits },
        ) => {
            let shift: i64 = bits as i64 - pointer as i64;
            if shift >= 0 && shift < BITS_IN_WORD as i64 {
                Some(shift as u64)
            } else {
                None
            }
        },
        _ => None,
    }
}

/// Replaces the forwarding bits of an object.
fn store_bits(vm: &VmConfig, meta: &mut HeapMetadata, object: ObjectReference, bits: u8)
    requires
        old(meta).wf(),
        old(meta)@.in_heap(object.addr()),
        bits <= 3,
    ensures
        final(meta).wf(),
        final(meta)@ == with_bits(*vm, old(meta)@, object.addr(), bits),
{
    let index: usize = meta.cell(object.0);
    match forwarding_bits_offset_in_forwarding_pointer(vm) {
        Some(shift) => {
            let word: u64 = meta.forwarding_word[index];
            let new: u64 = (word & !(3u64 << shift)) | ((bits as u64) << shift);
            meta.forwarding_word.set(index, new);
        },
        None => {
            meta.forwarding_bits.store(index, bits);
        },
    }
}

/// Attempts to become the worker that forwards an object. Returns the status before; the caller
/// has won iff forwarding had not been triggered. The winner's claim keeps other workers away; a
/// single tracer needs none.
pub fn attempt_to_forward(vm: &VmConfig, meta: &mut HeapMetadata, object: ObjectReference) -> (bits:
    u8)
    requires
        old(meta).wf(),
        old(meta)@.in_heap(object.addr()),
    ensures
        final(meta).wf(),
        bits == status(*vm, old(meta)@, object.addr()),
        final(meta)@ == if !vm.single_tracer && bits == FORWARDING_NOT_TRIGGERED_YET {
            with_bits(*vm, old(meta)@, object.addr(), BEING_FORWARDED)
        } else {
            old(meta)@
        },
{
    let bits: u8 = get_forwarding_status(vm, meta, object);
    if vm.single_tracer {
        return bits;
    }
    if bits == FORWARDING_NOT_TRIGGERED_YET {
        store_bits(vm, meta, object, BEING_FORWARDED);
    }
    bits
}

/// The forwarding bits to go by, given those that were read before: an object that was being
/// forwarded is looked at again.
pub open spec fn settled_bits(vm: VmConfig, m: MetadataView, address: int, bits: u8) -> u8 {
    if bits == BEING_FORWARDED {
        status(vm, m, address)
    } else {
        bits
    }
}

/// Waits until an object is no longer being forwarded, and returns the copy. An object whose
/// claim was given up is returned itself. The other worker must be done with the object when the
/// tables are looked at again.
pub fn spin_and_get_forwarded_object(
    vm: &VmConfig,
    meta: &HeapMetadata,
    object: ObjectReference,
    forwarding_bits: u8,
) -> (result: ObjectReference)
    requires
        meta.wf(),
        meta@.in_heap(object.addr()),
        settled_bits(*vm, meta@, object.addr(), forwarding_bits) != BEING_FORWARDED,
        forwarding_bits == FORWARDED ==> status(*vm, meta@, object.addr()) == FORWARDED,
    ensures
        result == (if settled_bits(*vm, meta@, object.addr(), forwarding_bits) == FORWARDED {
            pointer_of(*vm, meta@, object.addr())
        } else {
            object
        }),
{
    let mut bits: u8 = forwarding_bits;
    if bits == BEING_FORWARDED {
        bits = get_forwarding_status(vm, meta, object);
    }
    if bits == FORWARDED {
        read_forwarding_pointer(vm, meta, object)
    } else {
        object
    }
}

/// Copies an object and sets its forwarding state. After `copy` has made the copy,
/// `on_after_forwarding` records what else there is to record of it. Only then is the state set, so
/// that whoever sees the final state also sees what was recorded.
pub fn forward_object<C, G>(
    vm: &VmConfig,
    meta: &mut HeapMetadata,
    object: ObjectReference,
    copy: C,
    on_after_forwarding: G,
) -> (result: ObjectReference) where
    C: FnOnce(ObjectReference) -> ObjectReference,
    G: FnOnce(&mut HeapMetadata, ObjectReference),

    requires
        old(meta).wf(),
        old(meta)@.in_heap(object.addr()),
        call_requires(copy, (object,)),
        forall|m: &mut HeapMetadata, new: ObjectReference|
            *m == *old(meta) && call_ensures(copy, (object,), new) ==> #[trigger] call_requires(
                on_after_forwarding,
                (m, new),
            ),
        forall|m: &mut HeapMetadata, new: ObjectReference|
            *m == *old(meta) && #[trigger] call_ensures(on_after_forwarding, (m, new), ()) ==> {
                &&& final(m).wf()
                &&& final(m)@.in_heap(object.addr())
            },
    ensures
        final(meta).wf(),
        call_ensures(copy, (object,), result),
        exists|m: &mut HeapMetadata|
            {
                &&& *m == *old(meta)
                &&& #[trigger] call_ensures(on_after_forwarding, (m, result), ())
                &&& final(meta)@ == forwarded(*vm, final(m)@, object.addr(), result)
            },
{
    let new_object: ObjectReference = copy(object);
    on_after_forwarding(meta, new_object);
    set_forwarded(vm, meta, object, new_object)
}

/// Sets the forwarding state of an object to its copy `new_object`. Whatever else the caller
/// records of the copy is recorded before.
pub fn set_forwarded(
    vm: &VmConfig,
    meta: &mut HeapMetadata,
    object: ObjectReference,
    new_object: ObjectReference,
) -> (result: ObjectReference)
    requires
        old(meta).wf(),
        old(meta)@.in_heap(object.addr()),
    ensures
        final(meta).wf(),
        result == new_object,
        final(meta)@ == forwarded(*vm, old(meta)@, object.addr(), new_object),
{
    match forwarding_bits_offset_in_forwarding_pointer(vm) {
        Some(shift) => {
            let index: usize = meta.cell(object.0);
            let word: u64 = (new_object.0.0 as u64) | ((FORWARDED as u64) << shift);
            meta.forwarding_word.set(index, word);
        },
        None => {
            write_forwarding_pointer(vm, meta, object, new_object);
            if !header_sentinel_active(vm) {
                let index: usize = meta.cell(object.0);
                meta.forwarding_bits.store(index, FORWARDED);
            }
        },
    }
    new_object
}

/// The forwarding status of an object.
pub fn get_forwarding_status(vm: &VmConfig, meta: &HeapMetadata, object: ObjectReference) -> (bits:
    u8)
    requires
        meta.wf(),
        meta@.in_heap(object.addr()),
    ensures
        bits == status(*vm, meta@, object.addr()),
{
    if header_sentinel_active(vm) {
        return sentinel_status(vm, meta, object);
    }
    let index: usize = meta.cell(object.0);
    match forwarding_bits_offset_in_forwarding_pointer(vm) {
        Some(shift) => {
            let word: u64 = meta.forwarding_word[index];
            ((word >> shift) & 3u64) as u8
        },
        None => meta.forwarding_bits.load(index),
    }
}

/// Whether an object was copied.
pub fn is_forwarded(vm: &VmConfig, meta: &HeapMetadata, object: ObjectReference) -> (result: bool)
    requires
        meta.wf(),
        meta@.in_heap(object.addr()),
    ensures
        result == (status(*vm, meta@, object.addr()) == FORWARDED),
{
    get_forwarding_status(vm, meta, object) == FORWARDED
}

/// Whether forwarding was triggered.
pub fn is_forwarded_or_being_forwarded(
    vm: &VmConfig,
    meta: &HeapMetadata,
    object: ObjectReference,
) -> (result: bool)
    requires
        meta.wf(),
        meta@.in_heap(object.addr()),
    ensures
        result == (status(*vm, meta@, object.addr()) != FORWARDING_NOT_TRIGGERED_YET),
{
    get_forwarding_status(vm, meta, object) != FORWARDING_NOT_TRIGGERED_YET
}

/// Whether a status says that forwarding was triggered.
pub fn state_is_forwarded_or_being_forwarded(forwarding_bits: u8) -> (result: bool)
    ensures
        result == (forwarding_bits != FORWARDING_NOT_TRIGGERED_YET),
{
    forwarding_bits != FORWARDING_NOT_TRIGGERED_YET
}

/// Whether a status says that a worker is copying the object.
pub fn state_is_being_forwarded(forwarding_bits: u8) -> (result: bool)
    ensures
        result == (forwarding_bits == BEING_FORWARDED),
{
    forwarding_bits == BEING_FORWARDED
}

/// Clears the forwarding bits of an object. Where header words alone tell, there is nothing to do.
pub fn clear_forwarding_bits(vm: &VmConfig, meta: &mut HeapMetadata, object: ObjectReference)
    requires
        old(meta).wf(),
        old(meta)@.in_heap(object.addr()),
    ensures
        final(meta).wf(),
        final(meta)@ == if sentinel_active(*vm) {
            old(meta)@
        } else {
            with_bits(*vm, old(meta)@, object.addr(), 0)
        },
{
    if header_sentinel_active(vm) {
        return;
    }
    store_bits(vm, meta, object, 0);
}

/// The copy of an object for which forwarding was triggered.
pub fn read_forwarding_pointer(vm: &VmConfig, meta: &HeapMetadata, object: ObjectReference) -> (new:
    ObjectReference)
    requires
        meta.wf(),
        meta@.in_heap(object.addr()),
        status(*vm, meta@, object.addr()) != FORWARDING_NOT_TRIGGERED_YET,
    ensures
        new == pointer_of(*vm, meta@, object.addr()),
{
    let word: u64 = meta.forwarding_word[meta.cell(object.0)];
    let pointer: u64 = match vm.forwarding_pointer {
        MetadataLocation::InHeader { .. } => word & forwarding_pointer_mask(),
        MetadataLocation::OnSide => word,
    };
    ObjectReference(Address(pointer as usize))
}

/// Writes the forwarding pointer of an object.
pub fn write_forwarding_pointer(
    vm: &VmConfig,
    meta: &mut HeapMetadata,
    object: ObjectReference,
    new_object: ObjectReference,
)
    requires
        old(meta).wf(),
        old(meta)@.in_heap(object.addr()),
    ensures
        final(meta).wf(),
        final(meta)@ == pointer_written(*vm, old(meta)@, object.addr(), new_object),
{
    let index: usize = meta.cell(object.0);
    let word: u64 = meta.forwarding_word[index];
    let pointer: u64 = new_object.0.0 as u64;
    let new: u64 = match vm.forwarding_pointer {
        MetadataLocation::InHeader { .. } => {
            let mask: u64 = forwarding_pointer_mask();
            (word & !mask) | (pointer & mask)
        },
        MetadataLocation::OnSide => pointer,
    };
    meta.forwarding_word.set(index, new);
}

/// The forwarding status of an object, and its copy if forwarding was triggered.
pub fn forwarding_info(vm: &VmConfig, meta: &HeapMetadata, object: ObjectReference) -> (info: (
    u8,
    Option<ObjectReference>,
))
    requires
        meta.wf(),
        meta@.in_heap(object.addr()),
    ensures
        info.0 == status(*vm, meta@, object.addr()),
        info.1 == (if info.0 == FORWARDING_NOT_TRIGGERED_YET {
            None
        } else {
            Some(pointer_of(*vm, meta@, object.addr()))
        }),
{
    let bits: u8 = get_forwarding_status(vm, meta, object);
    if state_is_forwarded_or_being_forwarded(bits) {
        (bits, Some(read_forwarding_pointer(vm, meta, object)))
    } else {
        (bits, None)
    }
}

/// A forwarding pointer can be told apart from the rest of its word: it fits in the bits that are
/// kept for it, the forwarding bits are not among them, and where header words alone tell, it is
/// a heap address.
pub open spec fn can_hold(vm: VmConfig, new: ObjectReference) -> bool {
    &&& vm.forwarding_pointer is InHeader ==> new.0.0 as u64 & pointer_mask() == new.0.0 as u64
    &&& bits_shift(vm) matches Some(shift) ==> shift <= 62 && (3u64 << (shift as u64))
        & pointer_mask() == 0
    &&& sentinel_active(vm) ==> new.0.0 >= vm.heap_start
}

/// After an object was forwarded, its status says so, and its forwarding pointer is the copy.
pub proof fn law_forwarded_object_is_found(
    vm: VmConfig,
    m: MetadataView,
    address: int,
    new: ObjectReference,
)
    requires
        m.wf(),
        m.in_heap(address),
        can_hold(vm, new),
    ensures
        status(vm, forwarded(vm, m, address, new), address) == FORWARDED,
        pointer_of(vm, forwarded(vm, m, address, new), address) == new,
{
    let after = forwarded(vm, m, address, new);
    let i = m.cell(address);
    let p = new.0.0 as u64;
    let mask = pointer_mask();
    let old_word = m.forwarding_word[i];
    match bits_shift(vm) {
        Some(shift) => {
            let s = shift as u64;
            assert(((p | (3u64 << s)) >> s) & 3u64 == 3u64) by (bit_vector)
                requires
                    s <= 62,
            ;
            assert((p | (3u64 << s)) & mask == p) by (bit_vector)
                requires
                    p & mask == p,
                    (3u64 << s) & mask == 0,
            ;
            assert((p | (3u64 << s)) >= p) by (bit_vector);
        },
        None => {
            if vm.forwarding_pointer is InHeader {
                assert(((old_word & !mask) | (p & mask)) & mask == p) by (bit_vector)
                    requires
                        p & mask == p,
                ;
                assert(((old_word & !mask) | (p & mask)) >= p) by (bit_vector)
                    requires
                        p & mask == p,
                ;
            }
        },
    }
}

/// A forwarding pointer that was written is read back. In a header word the bits that are not kept
/// for it stay as they are, and so does the status, unless header words alone tell it: then the
/// pointer is itself the final state, if it is a heap address.
pub proof fn law_written_pointer_is_read_back(
    vm: VmConfig,
    m: MetadataView,
    address: int,
    new: ObjectReference,
)
    requires
        m.wf(),
        m.in_heap(address),
        vm.forwarding_pointer is InHeader ==> new.0.0 as u64 & pointer_mask() == new.0.0 as u64,
        bits_shift(vm) matches Some(shift) ==> (3u64 << (shift as u64)) & pointer_mask() == 0,
    ensures
        ({
            let after = pointer_written(vm, m, address, new);
            let i = m.cell(address);
            &&& pointer_of(vm, after, address) == new
            &&& vm.forwarding_pointer is InHeader ==> after.forwarding_word[i] & !pointer_mask()
                == m.forwarding_word[i] & !pointer_mask()
            &&& !sentinel_active(vm) ==> status(vm, after, address) == status(vm, m, address)
            &&& sentinel_active(vm) && new.0.0 >= vm.heap_start ==> status(vm, after, address)
                == FORWARDED
        }),
{
    let p = new.0.0 as u64;
    let mask = pointer_mask();
    let w = m.forwarding_word[m.cell(address)];
    if vm.forwarding_pointer is InHeader {
        let after = (w & !mask) | (p & mask);
        assert(after & mask == p && after & !mask == w & !mask && after >= p) by (bit_vector)
            requires
                p & mask == p,
                after == (w & !mask) | (p & mask),
        ;
        if let Some(shift) = bits_shift(vm) {
            let s = shift as u64;
            assert((after >> s) & 3u64 == (w >> s) & 3u64) by (bit_vector)
                requires
                    s < 64,
                    (3u64 << s) & mask == 0,
                    after == (w & !mask) | (p & mask),
            ;
        }
    }
}

/// Of several workers that attempt to forward an object, at most one wins: after the first
/// attempt the object counts as being forwarded.
pub proof fn law_single_winner(vm: VmConfig, m: MetadataView, address: int)
    requires
        m.wf(),
        m.in_heap(address),
        !vm.single_tracer,
        bits_shift(vm) matches Some(shift) ==> shift <= 62,
        status(vm, m, address) == FORWARDING_NOT_TRIGGERED_YET,
    ensures
        status(vm, with_bits(vm, m, address, BEING_FORWARDED), address) == BEING_FORWARDED,
{
    if let Some(shift) = bits_shift(vm) {
        let s = shift as u64;
        let w = m.forwarding_word[m.cell(address)];
        assert((((w & !(3u64 << s)) | (2u64 << s)) >> s) & 3u64 == 2u64) by (bit_vector)
            requires
                s <= 62,
        ;
    }
}

/// After its forwarding bits were cleared, forwarding of an object counts as not triggered.
pub proof fn law_cleared_is_not_triggered(vm: VmConfig, m: MetadataView, address: int)
    requires
        m.wf(),
        m.in_heap(address),
        !sentinel_active(vm),
    ensures
        status(vm, with_bits(vm, m, address, 0), address) == FORWARDING_NOT_TRIGGERED_YET,
{
    if let Some(shift) = bits_shift(vm) {
        let s = shift as u64;
        let w = m.forwarding_word[m.cell(address)];
        assert((((w & !(3u64 << s)) | (0u64 << s)) >> s) & 3u64 == 0u64) by (bit_vector)
            requires
                s < 64,
        ;
    }
}

} // verus!
