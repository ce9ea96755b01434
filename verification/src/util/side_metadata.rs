//! A side-metadata table: one small value for each region of a fixed size.

use vstd::prelude::*;

verus! {

/// `s` with the entries `lo..hi` set to `value`.
pub open spec fn filled(s: Seq<u8>, lo: int, hi: int, value: u8) -> Seq<u8> {
    Seq::new(
        s.len(),
        |i: int|
            if lo <= i < hi {
                value
            } else {
                s[i]
            },
    )
}

/// Whether the entries `lo..hi` of `s` are all zero.
pub open spec fn zero_range(s: Seq<u8>, lo: int, hi: int) -> bool {
    forall|i: int| lo <= i < hi ==> #[trigger] s[i] == 0
}

/// How many entries of `s` are zero.
pub open spec fn zeros(s: Seq<u8>) -> nat
    decreases s.len(),
{
    if s.len() == 0 {
        0
    } else {
        zeros(s.drop_last()) + (if s.last() == 0 {
            1nat
        } else {
            0nat
        })
    }
}

/// There are no more zero entries than entries.
pub proof fn lemma_zeros_bound(s: Seq<u8>)
    ensures
        zeros(s) <= s.len(),
    decreases s.len(),
{
    if s.len() > 0 {
        lemma_zeros_bound(s.drop_last());
    }
}

/// If what was not zero stays so, there are no more zero entries than before, and fewer if one
/// that was zero no longer is.
pub proof fn lemma_zeros(before: Seq<u8>, after: Seq<u8>)
    requires
        before.len() == after.len(),
        forall|i: int| 0 <= i < before.len() && before[i] != 0 ==> #[trigger] after[i] != 0,
    ensures
        zeros(after) <= zeros(before),
        (exists|i: int| 0 <= i < before.len() && before[i] == 0 && #[trigger] after[i] != 0)
            ==> zeros(after) < zeros(before),
    decreases before.len(),
{
    if before.len() > 0 {
        let b = before.drop_last();
        let a = after.drop_last();
        let n = before.len() - 1;
        assert forall|i: int| 0 <= i < b.len() && b[i] != 0 implies #[trigger] a[i] != 0 by {
            assert(after[i] != 0);
        }
        lemma_zeros(b, a);
        if exists|i: int| 0 <= i < before.len() && before[i] == 0 && #[trigger] after[i] != 0 {
            let i = choose|i: int|
                0 <= i < before.len() && before[i] == 0 && #[trigger] after[i] != 0;
            if i < n {
                assert(b[i] == 0 && a[i] != 0);
            }
        }
        assert(before[n] != 0 ==> after[n] != 0);
    }
}

/// One byte-sized entry for each region.
pub struct SideMetadataTable {
    entries: Vec<u8>,
}

impl View for SideMetadataTable {
    type V = Seq<u8>;

    closed spec fn view(&self) -> Seq<u8> {
        self.entries@
    }
}

impl SideMetadataTable {
    /// A table of `len` zero entries.
    pub fn new(len: usize) -> (table: Self)
        ensures
            table@ == Seq::new(len as nat, |i: int| 0u8),
    {
        let mut entries: Vec<u8> = Vec::new();
        entries.resize(len, 0);
        assert(entries@ =~= Seq::new(len as nat, |i: int| 0u8));
        SideMetadataTable { entries }
    }

    /// Reads an entry.
    pub fn load(&self, index: usize) -> (value: u8)
        requires
            index < self@.len(),
        ensures
            value == self@[index as int],
    {
        self.entries[index]
    }

    /// Writes an entry.
    pub fn store(&mut self, index: usize, value: u8)
        requires
            index < old(self)@.len(),
        ensures
            final(self)@ == old(self)@.update(index as int, value),
    {
        self.entries.set(index, value);
    }

    /// Replaces an entry that holds `expected`; otherwise hands back the value it holds.
    pub fn compare_exchange(&mut self, index: usize, expected: u8, value: u8) -> (result: Result<
        u8,
        u8,
    >)
        requires
            index < old(self)@.len(),
        ensures
            old(self)@[index as int] == expected ==> result == Ok::<u8, u8>(expected)
                && final(self)@ == old(self)@.update(index as int, value),
            old(self)@[index as int] != expected ==> result == Err::<u8, u8>(
                old(self)@[index as int],
            ) && final(self)@ == old(self)@,
    {
        let current: u8 = self.entries[index];
        if current == expected {
            self.entries.set(index, value);
            Ok(expected)
        } else {
            Err(current)
        }
    }

    /// Applies `f` to an entry. `Some` is stored and the old value handed back as `Ok`;
    /// `None` leaves the entry alone and hands the value back as `Err`.
    pub fn fetch_update<F: FnOnce(u8) -> Option<u8>>(&mut self, index: usize, f: F) -> (result:
        Result<u8, u8>)
        requires
            index < old(self)@.len(),
            call_requires(f, (old(self)@[index as int],)),
        ensures
            match result {
                Ok(value) => value == old(self)@[index as int] && exists|new: u8| #[trigger]
                    call_ensures(f, (value,), Some(new)) && final(self)@ == old(self)@.update(
                        index as int,
                        new,
                    ),
                Err(value) => value == old(self)@[index as int] && call_ensures(f, (value,), None)
                    && final(self)@ == old(self)@,
            },
    {
        let current: u8 = self.entries[index];
        let outcome: Option<u8> = f(current);
        match outcome {
            Some(new) => {
                self.entries.set(index, new);
                assert(exists|n: u8| #[trigger]
                    call_ensures(f, (current,), Some(n)) && self@ == old(self)@.update(
                        index as int,
                        n,
                    ));
                Ok(current)
            },
            None => Err(current),
        }
    }

    /// Sets the entries `from..to` to `value`.
    pub fn fill(&mut self, from: usize, to: usize, value: u8)
        requires
            from <= to <= old(self)@.len(),
        ensures
            final(self)@ == filled(old(self)@, from as int, to as int, value),
    {
        let mut i: usize = from;
        while i < to
            invariant
                from <= i <= to <= self@.len(),
                self@ == filled(old(self)@, from as int, i as int, value),
            decreases to - i,
        {
            self.entries.set(i, value);
            i += 1;
        }
    }

    /// Whether the entries `from..to` are all zero.
    pub fn is_zero(&self, from: usize, to: usize) -> (zero: bool)
        requires
            from <= to <= self@.len(),
        ensures
            zero == zero_range(self@, from as int, to as int),
    {
        let mut i: usize = from;
        while i < to
            invariant
                from <= i <= to <= self@.len(),
                zero_range(self@, from as int, i as int),
            decreases to - i,
        {
            if self.entries[i] != 0 {
                return false;
            }
            i += 1;
        }
        true
    }
}

} // verus!
