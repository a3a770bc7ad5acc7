//! Cutting a block span into ranges that a provider will accept.
//!
//! A span is fetched range by range, in ascending order. When a fetch fails
//! the chunk size is halved and the same blocks are asked for again in a
//! smaller range; once the size has reached the floor a further failure is
//! final. No block is passed over: the next range always starts at the first
//! block that has not been fetched.

use vstd::prelude::*;

verus! {

/// A chunk size at or below this is not halved again.
pub const MIN_CHUNK_SIZE: u64 = 100;

/// The pause, in milliseconds, that a caller leaves after each fetched range.
pub const DISPATCH_DELAY_MS: u64 = 100;

/// An inclusive range of block numbers.
#[derive(Clone, Copy, Debug, PartialEq, Eq, Structural)]
pub struct ScanRange {
    pub from_block: u64,
    pub to_block: u64,
}

impl ScanRange {
    /// Whether `block` lies in the range.
    pub open spec fn contains(self, block: int) -> bool {
        self.from_block <= block <= self.to_block
    }

    /// The blocks of the range.
    pub open spec fn blocks(self) -> Set<int> {
        Set::new(|block: int| self.contains(block))
    }

    /// The number of blocks in the range, zero if it is empty.
    pub open spec fn size(self) -> int {
        if self.from_block <= self.to_block {
            self.to_block - self.from_block + 1
        } else {
            0
        }
    }
}

/// The chunk size to use after a failure at `size`, if there is one.
pub open spec fn shrunk(size: u64) -> Option<u64> {
    if size > MIN_CHUNK_SIZE {
        Some(size / 2)
    } else {
        None
    }
}

/// The retry policy: a chunk size above the floor is halved, one at or below
/// it has no successor.
pub fn shrink(size: u64) -> (smaller: Option<u64>)
    ensures
        smaller == shrunk(size),
{
    if size > MIN_CHUNK_SIZE {
        Some(size / 2)
    } else {
        None
    }
}

/// The range of at most `size` blocks that starts at `from` and does not pass
/// `to`.
pub open spec fn first_chunk(from: int, to: int, size: int) -> ScanRange {
    ScanRange {
        from_block: from as u64,
        to_block: if from + size - 1 < to {
            (from + size - 1) as u64
        } else {
            to as u64
        },
    }
}

pub(crate) fn cut(from: u64, to: u64, size: u64) -> (range: ScanRange)
    requires
        from <= to,
        size >= 1,
    ensures
        range == first_chunk(from as int, to as int, size as int),
{
    let to_block = if size - 1 < to - from {
        from + (size - 1)
    } else {
        to
    };
    ScanRange { from_block: from, to_block }
}

/// What a chunker stands for: the span, the first block not yet fetched, and
/// the chunk size in force.
pub struct ChunkerState {
    pub start: int,
    pub end: int,
    pub next: int,
    pub chunk_size: int,
}

impl ChunkerState {
    /// The span's bounds are block numbers, the chunk size is positive, and
    /// `next` lies between the span's start and the block after its end.
    pub open spec fn well_formed(self) -> bool {
        &&& 0 <= self.start <= u64::MAX
        &&& 0 <= self.end <= u64::MAX
        &&& 1 <= self.chunk_size <= u64::MAX
        &&& if self.start <= self.end {
            self.start <= self.next <= self.end + 1
        } else {
            self.next == self.start
        }
    }

    /// Whether every block of the span has been fetched.
    pub open spec fn done(self) -> bool {
        self.next > self.end
    }

    /// The blocks of the span.
    pub open spec fn span(self) -> Set<int> {
        Set::new(|block: int| self.start <= block <= self.end)
    }

    /// The blocks fetched so far.
    pub open spec fn covered(self) -> Set<int> {
        Set::new(|block: int| self.start <= block < self.next)
    }

    /// The range to fetch next, where the span is not done.
    pub open spec fn current(self) -> ScanRange {
        first_chunk(self.next, self.end, self.chunk_size)
    }

    /// The state after the current range has been fetched.
    pub open spec fn advanced(self) -> ChunkerState {
        if self.done() {
            self
        } else {
            ChunkerState { next: self.current().to_block + 1, ..self }
        }
    }

    /// The state after the current range has failed, if the chunk size can
    /// still be halved.
    pub open spec fn reduced(self) -> Option<ChunkerState> {
        match shrunk(self.chunk_size as u64) {
            Some(size) => Some(ChunkerState { chunk_size: size as int, ..self }),
            None => None,
        }
    }

    /// What to do first, or next: fetch the current range, or stop.
    pub open spec fn pending(self) -> NextFetch {
        if self.done() {
            NextFetch::Finished
        } else {
            NextFetch::Fetch(self.current())
        }
    }

    /// The state after `outcome` has been reported for the current range.
    pub open spec fn after(self, outcome: FetchOutcome) -> ChunkerState {
        match outcome {
            FetchOutcome::Fetched => self.advanced(),
            FetchOutcome::Failed => match self.reduced() {
                Some(state) if !self.done() => state,
                _ => self,
            },
        }
    }

    /// What the caller is told after `outcome` has been reported.
    pub open spec fn answer(self, outcome: FetchOutcome) -> NextFetch {
        if self.done() {
            NextFetch::Finished
        } else if outcome is Failed && self.reduced() is None {
            NextFetch::Abandoned(self.current())
        } else {
            self.after(outcome).pending()
        }
    }
}

/// How the fetch of a range ended.
#[derive(Clone, Copy, Debug, PartialEq, Eq, Structural)]
pub enum FetchOutcome {
    /// The provider returned the logs of the whole range.
    Fetched,
    /// The provider refused, or the call failed.
    Failed,
}

/// What the caller of a sequential scan does next.
#[derive(Clone, Copy, Debug, PartialEq, Eq, Structural)]
pub enum NextFetch {
    /// Fetch this range and report how it ended.
    Fetch(ScanRange),
    /// The whole span has been fetched.
    Finished,
    /// This range failed at the smallest chunk size: the scan is over.
    Abandoned(ScanRange),
}

/// Hands out the ranges of a span one after the other.
#[derive(Clone, Copy, Debug)]
pub struct AdaptiveChunker {
    start: u64,
    end: u64,
    next: u64,
    exhausted: bool,
    chunk_size: u64,
}

impl View for AdaptiveChunker {
    type V = ChunkerState;

    closed spec fn view(&self) -> ChunkerState {
        ChunkerState {
            start: self.start as int,
            end: self.end as int,
            next: if !self.exhausted {
                self.next as int
            } else if self.start <= self.end {
                self.end + 1
            } else {
                self.start as int
            },
            chunk_size: self.chunk_size as int,
        }
    }
}

impl AdaptiveChunker {
    /// The invariant of a chunker.
    pub closed spec fn wf(&self) -> bool {
        &&& self.chunk_size >= 1
        &&& !self.exhausted ==> self.start <= self.next <= self.end
    }

    /// A well-formed chunker stands for a well-formed state.
    pub proof fn lemma_wf(&self)
        requires
            self.wf(),
        ensures
            self@.well_formed(),
    {
    }

    /// A chunker for the blocks `start..=end`, which are none if `start` is
    /// above `end`. There is none for a chunk size of zero.
    pub fn new(start: u64, end: u64, chunk_size: u64) -> (made: Option<AdaptiveChunker>)
        ensures
            made is None <==> chunk_size == 0,
            made matches Some(chunker) ==> chunker.wf() && chunker@ == (ChunkerState {
                start: start as int,
                end: end as int,
                next: start as int,
                chunk_size: chunk_size as int,
            }),
    {
        if chunk_size == 0 {
            None
        } else {
            Some(AdaptiveChunker { start, end, next: start, exhausted: start > end, chunk_size })
        }
    }

    /// Whether the whole span has been fetched.
    pub fn is_done(&self) -> (done: bool)
        requires
            self.wf(),
        ensures
            done == self@.done(),
    {
        self.exhausted
    }

    /// The chunk size in force.
    pub fn chunk_size(&self) -> (size: u64)
        requires
            self.wf(),
        ensures
            size == self@.chunk_size,
    {
        self.chunk_size
    }

    /// The range to fetch next, or `None` when the span is done.
    pub fn current(&self) -> (range: Option<ScanRange>)
        requires
            self.wf(),
        ensures
            range == if self@.done() {
                None
            } else {
                Some(self@.current())
            },
    {
        if self.exhausted {
            None
        } else {
            Some(cut(self.next, self.end, self.chunk_size))
        }
    }

    /// Moves past the current range, which has been fetched.
    pub fn advance(&mut self)
        requires
            old(self).wf(),
        ensures
            final(self).wf(),
            final(self)@ == old(self)@.advanced(),
    {
        if !self.exhausted {
            let range = cut(self.next, self.end, self.chunk_size);
            if range.to_block == self.end {
                self.exhausted = true;
            } else {
                self.next = range.to_block + 1;
            }
        }
    }

    /// Halves the chunk size after a failure, and says whether it could. The
    /// position stays: the same blocks are asked for again.
    pub fn reduce(&mut self) -> (halved: bool)
        requires
            old(self).wf(),
        ensures
            final(self).wf(),
            halved == old(self)@.reduced() is Some,
            final(self)@ == if halved {
                old(self)@.reduced()->0
            } else {
                old(self)@
            },
    {
        match shrink(self.chunk_size) {
            Some(size) => {
                self.chunk_size = size;
                true
            },
            None => false,
        }
    }

    /// What to do first: fetch the first range, or nothing for an empty span.
    pub fn begin(&self) -> (next: NextFetch)
        requires
            self.wf(),
        ensures
            next == self@.pending(),
    {
        match self.current() {
            Some(range) => NextFetch::Fetch(range),
            None => NextFetch::Finished,
        }
    }

    /// Takes the outcome of the fetch of the current range and says what to
    /// do next. After a fetched range comes the range behind it; after a
    /// failed one the same blocks at half the chunk size, or the end of the
    /// scan if the size cannot be halved.
    pub fn resume(&mut self, outcome: FetchOutcome) -> (next: NextFetch)
        requires
            old(self).wf(),
        ensures
            final(self).wf(),
            final(self)@ == old(self)@.after(outcome),
            next == old(self)@.answer(outcome),
    {
        match self.current() {
            None => NextFetch::Finished,
            Some(range) => {
                match outcome {
                    FetchOutcome::Fetched => {
                        self.advance();
                        self.begin()
                    },
                    FetchOutcome::Failed => {
                        if self.reduce() {
                            self.begin()
                        } else {
                            NextFetch::Abandoned(range)
                        }
                    },
                }
            },
        }
    }
}

/// The state reached from `state` when the outcomes of successive fetches are
/// `outcomes`.
pub open spec fn state_after(state: ChunkerState, outcomes: Seq<FetchOutcome>) -> ChunkerState
    decreases outcomes.len(),
{
    if outcomes.len() == 0 {
        state
    } else {
        state_after(state, outcomes.drop_last()).after(outcomes.last())
    }
}

/// The blocks of the ranges that were fetched on the way.
pub open spec fn blocks_fetched(state: ChunkerState, outcomes: Seq<FetchOutcome>) -> Set<int>
    decreases outcomes.len(),
{
    if outcomes.len() == 0 {
        Set::empty()
    } else {
        let before = state_after(state, outcomes.drop_last());
        let earlier = blocks_fetched(state, outcomes.drop_last());
        if outcomes.last() is Fetched && !before.done() {
            earlier.union(before.current().blocks())
        } else {
            earlier
        }
    }
}

/// No block is omitted. Whatever the outcomes of the fetches, the ranges that
/// were fetched are disjoint from what was covered before, make up exactly
/// the blocks from the span's start to the current position, and, once the
/// scan is done, exactly the span.
pub proof fn lemma_no_block_omitted(state: ChunkerState, outcomes: Seq<FetchOutcome>)
    requires
        state.well_formed(),
        state.next == state.start,
    ensures
        state_after(state, outcomes).well_formed(),
        state_after(state, outcomes).start == state.start,
        state_after(state, outcomes).end == state.end,
        blocks_fetched(state, outcomes) == state_after(state, outcomes).covered(),
        state_after(state, outcomes).done() ==> blocks_fetched(state, outcomes) == state.span(),
    decreases outcomes.len(),
{
    if outcomes.len() > 0 {
        lemma_no_block_omitted(state, outcomes.drop_last());
    }
}

/// One step keeps the state well formed and adds to the covered blocks
/// exactly the range that was fetched.
pub proof fn lemma_step(state: ChunkerState, outcome: FetchOutcome)
    requires
        state.well_formed(),
    ensures
        state.after(outcome).well_formed(),
        state.after(outcome).start == state.start,
        state.after(outcome).end == state.end,
        state.after(outcome).next == state.next || (outcome is Fetched && !state.done()),
        outcome is Fetched && !state.done() ==> {
            &&& state.current().from_block == state.next
            &&& state.current().from_block <= state.current().to_block <= state.end
            &&& state.current().size() <= state.chunk_size
            &&& state.after(outcome).next == state.current().to_block + 1
            &&& state.after(outcome).covered() == state.covered().union(state.current().blocks())
            &&& state.covered().disjoint(state.current().blocks())
        },
        outcome is Failed ==> state.after(outcome).covered() == state.covered(),
{
}

} // verus!
