//! Reference counts, and the marks on lines that are covered by an object from an earlier line.

use crate::policy::immix::line::Line;
use crate::util::address::{Address, ObjectReference};
use crate::util::constants::{BYTES_IN_LINE, CELLS_IN_LINE, MIN_OBJECT_SIZE};
use crate::util::metadata::{HeapMetadata, MetadataView, MAX_REF_COUNT};
use crate::util::vm::ObjectModel;
use vstd::prelude::*;

verus! {

/// Bits in a reference count.
pub const REF_COUNT_BITS: u8 = 2;

/// The bits of a reference count.
pub const REF_COUNT_MASK: u8 = 3;

/// The reference for an address that is not zero.
fn oref(address: Address) -> (object: ObjectReference)
    requires
        address.0 != 0,
    ensures
        object.0 == address,
{
    ObjectReference(address)
}

/// The tables with the count of the object at `address` set to `count`.
pub open spec fn with_count(m: MetadataView, address: int, count: u8) -> MetadataView {
    MetadataView { rc: m.rc.update(m.cell(address), count), ..m }
}

/// The count of the object at `address`.
pub open spec fn count_of(m: MetadataView, address: int) -> u8 {
    m.rc[m.cell(address)]
}

/// The first line after the one in which an object starts.
pub open spec fn straddle_first(m: MetadataView, address: int) -> int {
    m.line(address) + 1
}

/// The line in which the first address after an object lies.
pub open spec fn straddle_end(m: MetadataView, address: int, size: int) -> int {
    m.line(address + size)
}

/// The tables with the straddle marks of the lines `lo..hi` set to `value`, and with them the
/// counts at the first addresses of those lines.
pub open spec fn straddle_set(m: MetadataView, lo: int, hi: int, value: u8) -> MetadataView {
    MetadataView {
        straddle: Seq::new(
            m.straddle.len(),
            |i: int|
                if lo <= i && i < hi {
                    value
                } else {
                    m.straddle[i]
                },
        ),
        rc: Seq::new(
            m.rc.len(),
            |i: int|
                if lo <= i / CELLS_IN_LINE as int && i / (CELLS_IN_LINE as int) < hi && i
                    % CELLS_IN_LINE as int == 0 {
                    value
                } else {
                    m.rc[i]
                },
        ),
        ..m
    }
}

/// The tables with the lines that an object covers after its first marked, or their marks
/// removed. An object of a line or less covers none.
pub open spec fn object_straddle(
    m: MetadataView,
    address: int,
    size: int,
    value: u8,
) -> MetadataView {
    if size > BYTES_IN_LINE {
        straddle_set(m, straddle_first(m, address), straddle_end(m, address, size), value)
    } else {
        m
    }
}

/// Reference counting on the metadata tables.
#[derive(Debug, Clone, Copy, PartialEq, Eq, Structural)]
pub struct RefCountHelper;

impl RefCountHelper {
    /// The number of buffered increments.
    pub fn inc_buffer_size(&self, meta: &HeapMetadata) -> (size: usize)
        ensures
            size == meta@.inc_buffer_size,
    {
        meta.inc_buffer_size
    }

    /// Adds to the number of buffered increments, which saturates.
    pub fn increase_inc_buffer_size(&self, meta: &mut HeapMetadata, delta: usize)
        requires
            old(meta).wf(),
        ensures
            final(meta).wf(),
            final(meta)@ == (MetadataView {
                inc_buffer_size: if old(meta)@.inc_buffer_size + delta > usize::MAX {
                    usize::MAX
                } else {
                    (old(meta)@.inc_buffer_size + delta) as usize
                },
                ..old(meta)@
            }),
    {
        meta.inc_buffer_size = meta.inc_buffer_size.saturating_add(delta);
    }

    /// Forgets the buffered increments.
    pub fn reset_inc_buffer_size(&self, meta: &mut HeapMetadata)
        requires
            old(meta).wf(),
        ensures
            final(meta).wf(),
            final(meta)@ == (MetadataView { inc_buffer_size: 0, ..old(meta)@ }),
    {
        meta.inc_buffer_size = 0;
    }

    /// Applies `f` to the count of an object. `Some` becomes the new count and the old one is
    /// handed back as `Ok`; `None` leaves the count alone and hands it back as `Err`.
    pub fn fetch_update<F: FnOnce(u8) -> Option<u8>>(
        &self,
        meta: &mut HeapMetadata,
        o: ObjectReference,
        f: F,
    ) -> (result: Result<u8, u8>)
        requires
            old(meta).wf(),
            old(meta)@.in_heap(o.addr()),
            call_requires(f, (count_of(old(meta)@, o.addr()),)),
            forall|new: u8| #[trigger]
                call_ensures(f, (count_of(old(meta)@, o.addr()),), Some(new)) ==> new
                    <= MAX_REF_COUNT,
        ensures
            final(meta).wf(),
            match result {
                Ok(count) => count == count_of(old(meta)@, o.addr()) && exists|new: u8| #[trigger]
                    call_ensures(f, (count,), Some(new)) && final(meta)@ == with_count(
                        old(meta)@,
                        o.addr(),
                        new,
                    ),
                Err(count) => count == count_of(old(meta)@, o.addr()) && call_ensures(
                    f,
                    (count,),
                    None,
                ) && final(meta)@ == old(meta)@,
            },
    {
        let index: usize = meta.cell(o.0);
        let result: Result<u8, u8> = meta.rc.fetch_update(index, f);
        proof {
            if let Ok(count) = result {
                let new = choose|new: u8| #[trigger]
                    call_ensures(f, (count,), Some(new)) && meta@.rc == old(meta)@.rc.update(
                        index as int,
                        new,
                    );
                assert(meta@ == with_count(old(meta)@, o.addr(), new));
            }
        }
        result
    }

    /// Whether the count of an object is at its maximum, which it keeps.
    pub fn is_stuck(&self, meta: &HeapMetadata, o: ObjectReference) -> (stuck: bool)
        requires
            meta.wf(),
            meta@.in_heap(o.addr()),
        ensures
            stuck == (count_of(meta@, o.addr()) == MAX_REF_COUNT),
    {
        self.count(meta, o) == MAX_REF_COUNT
    }

    /// Sets the count of an object to its maximum, which it keeps.
    pub fn stick(&self, meta: &mut HeapMetadata, o: ObjectReference) -> (result: Result<u8, u8>)
        requires
            old(meta).wf(),
            old(meta)@.in_heap(o.addr()),
        ensures
            final(meta).wf(),
            result == (if count_of(old(meta)@, o.addr()) == MAX_REF_COUNT {
                Err::<u8, u8>(MAX_REF_COUNT)
            } else {
                Ok::<u8, u8>(count_of(old(meta)@, o.addr()))
            }),
            final(meta)@ == with_count(old(meta)@, o.addr(), MAX_REF_COUNT),
    {
        let result = self.fetch_update(
            meta,
            o,
            |x: u8| -> (new: Option<u8>)
                ensures
                    x == MAX_REF_COUNT ==> new is None,
                    x != MAX_REF_COUNT ==> new == Some(MAX_REF_COUNT)
                {
                    if x == MAX_REF_COUNT {
                        None
                    } else {
                        Some(MAX_REF_COUNT)
                    }
                },
        );
        assert(meta@.rc =~= with_count(old(meta)@, o.addr(), MAX_REF_COUNT).rc);
        result
    }

    /// Increments the count of an object, unless it is at its maximum.
    pub fn inc(&self, meta: &mut HeapMetadata, o: ObjectReference) -> (result: Result<u8, u8>)
        requires
            old(meta).wf(),
            old(meta)@.in_heap(o.addr()),
        ensures
            final(meta).wf(),
            result == inc_result(old(meta)@, o.addr()),
            final(meta)@ == incremented(old(meta)@, o.addr()),
    {
        self.fetch_update(
            meta,
            o,
            |x: u8| -> (new: Option<u8>)
                requires
                    x <= MAX_REF_COUNT,
                ensures
                    x == MAX_REF_COUNT ==> new is None,
                    x != MAX_REF_COUNT ==> new == Some((x + 1) as u8)
                {
                    if x == MAX_REF_COUNT {
                        None
                    } else {
                        Some(x + 1)
                    }
                },
        )
    }

    /// Decrements the count of an object, unless it is zero or at its maximum.
    pub fn dec(&self, meta: &mut HeapMetadata, o: ObjectReference) -> (result: Result<u8, u8>)
        requires
            old(meta).wf(),
            old(meta)@.in_heap(o.addr()),
        ensures
            final(meta).wf(),
            result == dec_result(old(meta)@, o.addr()),
            final(meta)@ == decremented(old(meta)@, o.addr()),
    {
        self.fetch_update(
            meta,
            o,
            |x: u8| -> (new: Option<u8>)
                requires
                    x <= MAX_REF_COUNT,
                ensures
                    x == 0 || x == MAX_REF_COUNT ==> new is None,
                    x != 0 && x != MAX_REF_COUNT ==> new == Some((x - 1) as u8)
                {
                    if x == 0 || x == MAX_REF_COUNT {
                        None
                    } else {
                        Some(x - 1)
                    }
                },
        )
    }

    /// Sets the count of an object.
    pub fn set(&self, meta: &mut HeapMetadata, o: ObjectReference, count: u8)
        requires
            old(meta).wf(),
            old(meta)@.in_heap(o.addr()),
            count <= MAX_REF_COUNT,
        ensures
            final(meta).wf(),
            final(meta)@ == with_count(old(meta)@, o.addr(), count),
    {
        let index: usize = meta.cell(o.0);
        meta.rc.store(index, count);
    }

    /// Sets the count of an object that no other thread touches.
    pub fn set_relaxed(&self, meta: &mut HeapMetadata, o: ObjectReference, count: u8)
        requires
            old(meta).wf(),
            old(meta)@.in_heap(o.addr()),
            count <= MAX_REF_COUNT,
        ensures
            final(meta).wf(),
            final(meta)@ == with_count(old(meta)@, o.addr(), count),
    {
        let index: usize = meta.cell(o.0);
        meta.rc.store(index, count);
    }

    /// The count of an object.
    pub fn count(&self, meta: &HeapMetadata, o: ObjectReference) -> (count: u8)
        requires
            meta.wf(),
            meta@.in_heap(o.addr()),
        ensures
            count == count_of(meta@, o.addr()),
            count <= MAX_REF_COUNT,
    {
        meta.rc.load(meta.cell(o.0))
    }

    /// Whether the count at an object, or at the start of a line, is zero.
    pub fn object_or_line_is_dead(&self, meta: &HeapMetadata, o: ObjectReference) -> (dead: bool)
        requires
            meta.wf(),
            meta@.in_heap(o.addr()),
        ensures
            dead == (count_of(meta@, o.addr()) == 0),
    {
        meta.rc.load(meta.cell(o.0)) == 0
    }

    /// Whether the count of an object is zero.
    pub fn is_dead(&self, meta: &HeapMetadata, o: ObjectReference) -> (dead: bool)
        requires
            meta.wf(),
            meta@.in_heap(o.addr()),
        ensures
            dead == (count_of(meta@, o.addr()) == 0),
    {
        self.count(meta, o) == 0
    }

    /// Whether the count of an object is zero or at its maximum.
    pub fn is_dead_or_stuck(&self, meta: &HeapMetadata, o: ObjectReference) -> (result: bool)
        requires
            meta.wf(),
            meta@.in_heap(o.addr()),
        ensures
            result == (count_of(meta@, o.addr()) == 0 || count_of(meta@, o.addr())
                == MAX_REF_COUNT),
    {
        let count: u8 = self.count(meta, o);
        count == 0 || count == MAX_REF_COUNT
    }

    /// Whether a line is marked as covered by an object from an earlier line.
    pub fn is_straddle_line(&self, meta: &HeapMetadata, line: Line) -> (straddle: bool)
        requires
            meta.wf(),
            meta@.in_heap(line.addr()),
        ensures
            straddle == (meta@.straddle[line.index(meta@)] != 0),
    {
        meta.straddle.load(meta.line(line.0)) != 0
    }

    /// Whether an address has a count and lies in a line that is covered by an object from an
    /// earlier line.
    pub fn address_is_in_straddle_line(&self, meta: &HeapMetadata, a: Address) -> (straddle: bool)
        requires
            meta.wf(),
            meta@.in_heap(a.0 as int),
        ensures
            straddle == (count_of(meta@, a.0 as int) != 0 && meta@.straddle[meta@.line(a.0 as int)]
                != 0),
    {
        let line: Line = Line::from_aligned_address(Line::align(a));
        self.count(meta, oref(a)) != 0 && self.is_straddle_line(meta, line)
    }

    /// Sets the straddle marks, and the counts, of the lines that an object covers after its
    /// first.
    fn set_straddle_lines(
        &self,
        meta: &mut HeapMetadata,
        o: ObjectReference,
        size: usize,
        value: u8,
    )
        requires
            old(meta).wf(),
            old(meta)@.in_heap(o.addr()),
            o.addr() + size <= old(meta)@.end(),
            size > BYTES_IN_LINE,
            value <= 1,
        ensures
            final(meta).wf(),
            final(meta)@ == straddle_set(
                old(meta)@,
                straddle_first(old(meta)@, o.addr()),
                straddle_end(old(meta)@, o.addr(), size as int),
                value,
            ),
    {
        let ghost before: MetadataView = meta@;
        let first: usize = meta.line(o.0) + 1;
        let end: usize = (o.0.0 + size - meta.start.0) / BYTES_IN_LINE;
        assert(straddle_set(before, first as int, first as int, value) == before);
        let mut line: usize = first;
        while line != end
            invariant
                first <= line <= end <= before.line_mark.len(),
                meta.wf(),
                before.wf(),
                value <= 1,
                meta@ == straddle_set(before, first as int, line as int, value),
            decreases end - line,
        {
            meta.straddle.store(line, value);
            meta.rc.store(line * CELLS_IN_LINE, value);
            line += 1;
            assert(meta@ == straddle_set(before, first as int, line as int, value));
        }
    }

    /// Marks the lines that an object of the given size covers after its first.
    fn mark_straddle_object_with_size(
        &self,
        meta: &mut HeapMetadata,
        o: ObjectReference,
        size: usize,
    )
        requires
            old(meta).wf(),
            old(meta)@.in_heap(o.addr()),
            o.addr() + size <= old(meta)@.end(),
            size > BYTES_IN_LINE,
        ensures
            final(meta).wf(),
            final(meta)@ == object_straddle(old(meta)@, o.addr(), size as int, 1),
    {
        self.set_straddle_lines(meta, o, size, 1);
    }

    /// Marks the lines that an object of more than a line covers after its first.
    pub fn mark_straddle_object(
        &self,
        meta: &mut HeapMetadata,
        objects: &ObjectModel,
        o: ObjectReference,
    )
        requires
            old(meta).wf(),
            old(meta)@.in_heap(o.addr()),
            o.addr() + objects.size(o.0.0) <= old(meta)@.end(),
            objects.size(o.0.0) > BYTES_IN_LINE,
        ensures
            final(meta).wf(),
            final(meta)@ == object_straddle(
                old(meta)@,
                o.addr(),
                objects.size(o.0.0) as int,
                1,
            ),
    {
        let size: usize = objects.get_current_size(o);
        self.mark_straddle_object_with_size(meta, o, size);
    }

    /// Removes the marks of the lines that an object covers after its first.
    pub fn unmark_straddle_object(
        &self,
        meta: &mut HeapMetadata,
        objects: &ObjectModel,
        o: ObjectReference,
    )
        requires
            old(meta).wf(),
            old(meta)@.in_heap(o.addr()),
            o.addr() + objects.size(o.0.0) <= old(meta)@.end(),
        ensures
            final(meta).wf(),
            final(meta)@ == object_straddle(
                old(meta)@,
                o.addr(),
                objects.size(o.0.0) as int,
                0,
            ),
    {
        let size: usize = objects.get_current_size(o);
        if size > BYTES_IN_LINE {
            self.set_straddle_lines(meta, o, size, 0);
        }
    }

    /// All counts within an object are zero, not only the count of the object itself.
    pub open spec fn zero_counts(
        self,
        m: MetadataView,
        objects: ObjectModel,
        o: ObjectReference,
    ) -> bool {
        forall|i: int|
            0 <= i && i * MIN_OBJECT_SIZE < objects.size(o.0.0) ==> #[trigger] m.rc[m.cell(o.addr())
                + i] == 0
    }

    /// Makes sure that all counts within an object are zero.
    pub fn assert_zero_ref_count(
        &self,
        meta: &HeapMetadata,
        objects: &ObjectModel,
        o: ObjectReference,
    )
        requires
            meta.wf(),
            meta@.in_heap(o.addr()),
            o.addr() + objects.size(o.0.0) <= meta@.end(),
            self.zero_counts(meta@, *objects, o),
    {
        let zero: bool = self.has_zero_ref_counts(meta, objects, o);
        assert(zero);
    }

    /// Whether all counts within an object are zero.
    pub fn has_zero_ref_counts(
        &self,
        meta: &HeapMetadata,
        objects: &ObjectModel,
        o: ObjectReference,
    ) -> (zero: bool)
        requires
            meta.wf(),
            meta@.in_heap(o.addr()),
            o.addr() + objects.size(o.0.0) <= meta@.end(),
        ensures
            zero == self.zero_counts(meta@, *objects, o),
    {
        let size: usize = objects.get_current_size(o);
        let first: usize = meta.cell(o.0);
        let mut i: usize = 0;
        let mut offset: usize = 0;
        while offset < size
            invariant
                meta.wf(),
                size == objects.size(o.0.0),
                meta@.in_heap(o.addr()),
                o.addr() + size <= meta@.end(),
                first == meta@.cell(o.addr()),
                offset == i * MIN_OBJECT_SIZE,
                offset < size + MIN_OBJECT_SIZE,
                forall|j: int| 0 <= j < i ==> #[trigger] meta@.rc[first + j] == 0,
            decreases size + MIN_OBJECT_SIZE - offset,
        {
            if self.count(meta, oref(Address(o.0.0 + offset))) != 0 {
                assert(meta@.cell(o.addr() + offset) == first + i);
                return false;
            }
            assert(meta@.cell(o.addr() + offset) == first + i);
            if size - offset <= MIN_OBJECT_SIZE {
                return true;
            }
            offset += MIN_OBJECT_SIZE;
            i += 1;
        }
        true
    }

    /// Promotes a nursery object whose count became positive: the lines that it covers after its
    /// first are marked.
    pub fn promote(&self, meta: &mut HeapMetadata, objects: &ObjectModel, o: ObjectReference)
        requires
            old(meta).wf(),
            old(meta)@.in_heap(o.addr()),
            o.addr() + objects.size(o.0.0) <= old(meta)@.end(),
        ensures
            final(meta).wf(),
            final(meta)@ == object_straddle(
                old(meta)@,
                o.addr(),
                objects.size(o.0.0) as int,
                1,
            ),
    {
        let size: usize = objects.get_current_size(o);
        self.promote_with_size(meta, o, size);
    }

    /// Promotes a nursery object of a known size.
    pub fn promote_with_size(&self, meta: &mut HeapMetadata, o: ObjectReference, size: usize)
        requires
            old(meta).wf(),
            old(meta)@.in_heap(o.addr()),
            o.addr() + size <= old(meta)@.end(),
        ensures
            final(meta).wf(),
            final(meta)@ == object_straddle(old(meta)@, o.addr(), size as int, 1),
    {
        if size > BYTES_IN_LINE {
            self.mark_straddle_object_with_size(meta, o, size);
        }
    }
}

/// What an increment returns: the count before it, as an error iff the count is at its maximum.
pub open spec fn inc_result(m: MetadataView, address: int) -> Result<u8, u8> {
    if count_of(m, address) == MAX_REF_COUNT {
        Err(MAX_REF_COUNT)
    } else {
        Ok(count_of(m, address))
    }
}

/// The tables after an increment.
pub open spec fn incremented(m: MetadataView, address: int) -> MetadataView {
    if count_of(m, address) == MAX_REF_COUNT {
        m
    } else {
        with_count(m, address, (count_of(m, address) + 1) as u8)
    }
}

/// What a decrement returns: the count before it, as an error iff it is zero or at its maximum.
pub open spec fn dec_result(m: MetadataView, address: int) -> Result<u8, u8> {
    if count_of(m, address) == 0 || count_of(m, address) == MAX_REF_COUNT {
        Err(count_of(m, address))
    } else {
        Ok(count_of(m, address))
    }
}

/// The tables after a decrement.
pub open spec fn decremented(m: MetadataView, address: int) -> MetadataView {
    if count_of(m, address) == 0 || count_of(m, address) == MAX_REF_COUNT {
        m
    } else {
        with_count(m, address, (count_of(m, address) - 1) as u8)
    }
}

/// A decrement undoes an increment, unless the increment reached the maximum.
pub proof fn law_dec_undoes_inc(m: MetadataView, address: int)
    requires
        m.wf(),
        m.in_heap(address),
        count_of(m, address) + 1 < MAX_REF_COUNT,
    ensures
        decremented(incremented(m, address), address) == m,
{
    assert(decremented(incremented(m, address), address) =~= m);
}

/// An increment undoes a decrement that changed the count.
pub proof fn law_inc_undoes_dec(m: MetadataView, address: int)
    requires
        m.wf(),
        m.in_heap(address),
        0 < count_of(m, address) < MAX_REF_COUNT,
    ensures
        incremented(decremented(m, address), address) == m,
{
    assert(incremented(decremented(m, address), address) =~= m);
}

/// A count at its maximum is changed neither by an increment nor by a decrement.
pub proof fn law_stuck_counts_stay(m: MetadataView, address: int)
    requires
        m.wf(),
        m.in_heap(address),
        count_of(m, address) == MAX_REF_COUNT,
    ensures
        incremented(m, address) == m,
        decremented(m, address) == m,
{
}

/// Counts stay in range, and no other object's count changes.
pub proof fn law_counting_keeps_the_tables(m: MetadataView, address: int)
    requires
        m.wf(),
        m.in_heap(address),
    ensures
        incremented(m, address).wf(),
        decremented(m, address).wf(),
        forall|other: int|
            m.in_heap(other) && m.cell(other) != m.cell(address) ==> #[trigger] count_of(
                incremented(m, address),
                other,
            ) == count_of(m, other) && count_of(decremented(m, address), other) == count_of(
                m,
                other,
            ),
{
}

/// Removing the straddle marks of an object undoes marking them, when its lines carried no mark
/// and no count before.
pub proof fn law_unmark_undoes_mark(m: MetadataView, address: int, size: int)
    requires
        m.wf(),
        m.in_heap(address),
        0 <= size,
        address + size <= m.end(),
        forall|i: int|
            straddle_first(m, address) <= i < straddle_end(m, address, size)
                ==> #[trigger] m.straddle[i] == 0 && m.rc[i * CELLS_IN_LINE] == 0,
    ensures
        object_straddle(object_straddle(m, address, size, 1), address, size, 0) == m,
{
    let once = object_straddle(m, address, size, 1);
    let twice = object_straddle(once, address, size, 0);
    assert(twice.straddle =~= m.straddle);
    assert forall|i: int| 0 <= i < m.rc.len() implies twice.rc[i] == m.rc[i] by {
        let line = i / CELLS_IN_LINE as int;
        if size > BYTES_IN_LINE && straddle_first(m, address) <= line && line < straddle_end(
            m,
            address,
            size,
        ) && i % CELLS_IN_LINE as int == 0 {
            assert(m.straddle[line] == 0);
            assert(i == line * CELLS_IN_LINE);
        }
    }
    assert(twice.rc =~= m.rc);
    assert(twice =~= m);
}

} // verus!
