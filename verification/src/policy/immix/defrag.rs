//! Defragmentation state of an Immix space.

use vstd::prelude::*;

verus! {

/// The number of bins of a mark histogram: a block has at most half as many holes as lines.
pub const NUM_BINS: usize = 65;

/// For each number of holes, how many marked lines the blocks with that many holes have.
pub struct Histogram {
    /// The counts.
    pub bins: Vec<usize>,
}

impl View for Histogram {
    type V = Seq<usize>;

    open spec fn view(&self) -> Seq<usize> {
        self.bins@
    }
}

impl Histogram {
    /// An empty histogram.
    pub fn new() -> (histogram: Self)
        ensures
            histogram@ == Seq::new(NUM_BINS as nat, |i: int| 0usize),
    {
        let mut bins: Vec<usize> = Vec::new();
        bins.resize(NUM_BINS, 0);
        assert(bins@ =~= Seq::new(NUM_BINS as nat, |i: int| 0usize));
        Histogram { bins }
    }

    /// Adds marked lines to the bin of a number of holes.
    pub fn record(&mut self, holes: usize, lines: usize)
        requires
            holes < old(self)@.len(),
            old(self)@[holes as int] + lines <= usize::MAX,
        ensures
            final(self)@ == old(self)@.update(
                holes as int,
                (old(self)@[holes as int] + lines) as usize,
            ),
    {
        let count: usize = self.bins[holes] + lines;
        self.bins.set(holes, count);
    }
}

/// What the defragmentation state holds.
#[verifier::ext_equal]
pub ghost struct DefragView {
    /// The current collection defragments.
    pub in_defrag: bool,
    /// The next defragmenting collection takes every block in use as a source.
    pub compact_all: bool,
    /// The space for copies ran out.
    pub space_exhausted: bool,
    /// Blocks with more holes than this are sources.
    pub spill_threshold: usize,
    /// The histograms that sweeps have completed.
    pub mark_histograms: Seq<Seq<usize>>,
    /// How many clean blocks were handed out for copies.
    pub clean_blocks_for_copies: usize,
}

impl DefragView {
    /// The state after the end of a collection.
    pub open spec fn ended(self) -> DefragView {
        DefragView {
            in_defrag: false,
            compact_all: self.compact_all && !self.in_defrag,
            ..self
        }
    }

    /// The state after a clean block was handed out.
    pub open spec fn with_clean_block(self, copy: bool) -> DefragView {
        DefragView {
            clean_blocks_for_copies: if copy {
                self.clean_blocks_for_copies.wrapping_add(1)
            } else {
                self.clean_blocks_for_copies
            },
            ..self
        }
    }
}

/// Defragmentation state of an Immix space.
pub struct Defrag {
    /// The current collection defragments.
    pub in_defrag: bool,
    /// The next defragmenting collection takes every block in use as a source.
    pub compact_all: bool,
    /// The space for copies ran out.
    pub space_exhausted: bool,
    /// Blocks with more holes than this are sources.
    pub spill_threshold: usize,
    /// The histograms that sweeps have completed.
    pub mark_histograms: Vec<Histogram>,
    /// How many clean blocks were handed out for copies.
    pub clean_blocks_for_copies: usize,
}

impl View for Defrag {
    type V = DefragView;

    open spec fn view(&self) -> DefragView {
        DefragView {
            in_defrag: self.in_defrag,
            compact_all: self.compact_all,
            space_exhausted: self.space_exhausted,
            spill_threshold: self.spill_threshold,
            mark_histograms: Seq::new(
                self.mark_histograms@.len(),
                |i: int| self.mark_histograms@[i]@,
            ),
            clean_blocks_for_copies: self.clean_blocks_for_copies,
        }
    }
}

impl Defrag {
    /// No collection defragments yet.
    pub fn new() -> (defrag: Self)
        ensures
            defrag@ == (DefragView {
                in_defrag: false,
                compact_all: false,
                space_exhausted: false,
                spill_threshold: 0,
                mark_histograms: Seq::empty(),
                clean_blocks_for_copies: 0,
            }),
    {
        Defrag {
            in_defrag: false,
            compact_all: false,
            space_exhausted: false,
            spill_threshold: 0,
            mark_histograms: Vec::new(),
            clean_blocks_for_copies: 0,
        }
    }

    /// Whether the current collection defragments.
    pub fn in_defrag(&self) -> (in_defrag: bool)
        ensures
            in_defrag == self@.in_defrag,
    {
        self.in_defrag
    }

    /// Ends a collection. One that defragmented ends the request for a compaction.
    pub fn reset_in_defrag(&mut self)
        ensures
            final(self)@ == old(self)@.ended(),
    {
        if self.in_defrag {
            self.compact_all = false;
        }
        self.in_defrag = false;
    }

    /// Asks, once, that the next defragmenting collection takes every block in use as a source.
    pub fn request_compact_all(&mut self)
        ensures
            final(self)@ == (DefragView { compact_all: true, ..old(self)@ }),
    {
        self.compact_all = true;
    }

    /// Whether every block in use is a source.
    pub fn compact_all_active(&self) -> (active: bool)
        ensures
            active == self@.compact_all,
    {
        self.compact_all
    }

    /// Whether the space for copies ran out.
    pub fn space_exhausted(&self) -> (exhausted: bool)
        ensures
            exhausted == self@.space_exhausted,
    {
        self.space_exhausted
    }

    /// Takes note of a clean block that was handed out.
    pub fn notify_new_clean_block(&mut self, copy: bool)
        ensures
            final(self)@ == old(self)@.with_clean_block(copy),
    {
        if copy {
            self.clean_blocks_for_copies = self.clean_blocks_for_copies.wrapping_add(1);
        }
    }

    /// Forgets the histograms of earlier sweeps.
    pub fn clear_mark_histograms(&mut self)
        ensures
            final(self)@ == (DefragView { mark_histograms: Seq::empty(), ..old(self)@ }),
    {
        self.mark_histograms = Vec::new();
    }

    /// Adds the histogram of a completed sweep.
    pub fn add_completed_mark_histogram(&mut self, histogram: Histogram)
        ensures
            final(self)@ == (DefragView {
                mark_histograms: old(self)@.mark_histograms.push(histogram@),
                ..old(self)@
            }),
    {
        self.mark_histograms.push(histogram);
    }
}

} // verus!
