//! Scanning a span with several fetches in flight.
//!
//! The scanner decides which range is fetched next and what follows from the
//! outcome of each fetch; the caller makes the fetches, as many at a time as
//! the scanner allows, and reports each outcome when it arrives, in whatever
//! order. A range that failed is kept and cut again at the chunk size then in
//! force, so that every block of the span stays either fetched, in flight or
//! waiting. After a failure that no smaller range can mend the scanner hands
//! out nothing more, lets the fetches in flight come back, and then reports
//! the range that failed.

use crate::chunker::{cut, first_chunk, AdaptiveChunker, ChunkerState, ScanRange};
use vstd::prelude::*;

verus! {

/// A range on its way to the provider, with the chunk size that was in force
/// when it was cut.
#[derive(Clone, Copy, Debug, PartialEq, Eq, Structural)]
pub struct WorkUnit {
    pub range: ScanRange,
    pub chunk_size: u64,
}

/// How the fetch of a unit ended.
#[derive(Clone, Copy, Debug, PartialEq, Eq, Structural)]
pub enum UnitOutcome {
    /// The provider returned the logs of the whole range.
    Fetched,
    /// The provider refused for now: a range too large, a rate limit, a
    /// timeout. A smaller range may pass.
    Transient,
    /// The fetch failed in a way that no retry will mend.
    Fatal,
}

/// What the caller does next.
#[derive(Clone, Copy, Debug, PartialEq, Eq, Structural)]
pub enum Dispatch {
    /// Start the fetch of this range, then ask again.
    Fetch(ScanRange),
    /// Start nothing; report the outcome of a fetch in flight, then ask
    /// again.
    Wait,
    /// Every block of the span has been fetched.
    Finished,
    /// The scan is over: this range failed for good, and nothing is in
    /// flight any more.
    Aborted(ScanRange),
}

/// Whether the two ranges have no block in common.
pub open spec fn apart(a: ScanRange, b: ScanRange) -> bool {
    a.to_block < b.from_block || b.to_block < a.from_block
}

/// What a scanner stands for.
pub struct ScannerState {
    /// The span, the first block never yet handed out, and the chunk size.
    pub chunker: ChunkerState,
    /// The ranges that failed and wait to be cut and fetched again.
    pub backlog: Seq<ScanRange>,
    /// The units whose fetch has been started and not yet reported.
    pub in_flight: Seq<WorkUnit>,
    /// The most units that may be in flight at once.
    pub limit: int,
    /// The first range that failed for good.
    pub failure: Option<ScanRange>,
    /// The blocks whose logs have been fetched.
    pub done: Set<int>,
}

impl ScannerState {
    /// Whether `block` lies in a range that waits in the backlog.
    pub open spec fn waiting(self, block: int) -> bool {
        exists|i: int| 0 <= i < self.backlog.len() && (#[trigger] self.backlog[i]).contains(block)
    }

    /// Whether `block` lies in a range in flight.
    pub open spec fn flying(self, block: int) -> bool {
        exists|i: int|
            0 <= i < self.in_flight.len() && (#[trigger] self.in_flight[i]).range.contains(block)
    }

    /// Whether `block` is fetched, in flight or waiting.
    pub open spec fn accounted(self, block: int) -> bool {
        self.done.contains(block) || self.flying(block) || self.waiting(block)
    }

    /// Whether `range` is not empty and lies among the blocks handed out.
    pub open spec fn bounded(self, range: ScanRange) -> bool {
        self.chunker.start <= range.from_block <= range.to_block < self.chunker.next
    }

    /// Every range held lies among the blocks handed out.
    pub open spec fn ranges_bounded(self) -> bool {
        &&& forall|i: int| 0 <= i < self.backlog.len() ==> self.bounded(#[trigger] self.backlog[i])
        &&& forall|i: int|
            0 <= i < self.in_flight.len() ==> self.bounded((#[trigger] self.in_flight[i]).range)
    }

    /// No block is held twice: the ranges in flight and in the backlog are
    /// pairwise apart, and none of them holds a fetched block.
    pub open spec fn exclusive(self) -> bool {
        &&& forall|i: int, j: int|
            0 <= i < j < self.backlog.len() ==> apart(
                #[trigger] self.backlog[i],
                #[trigger] self.backlog[j],
            )
        &&& forall|i: int, j: int|
            0 <= i < j < self.in_flight.len() ==> apart(
                (#[trigger] self.in_flight[i]).range,
                (#[trigger] self.in_flight[j]).range,
            )
        &&& forall|i: int, j: int|
            0 <= i < self.backlog.len() && 0 <= j < self.in_flight.len() ==> apart(
                #[trigger] self.backlog[i],
                (#[trigger] self.in_flight[j]).range,
            )
        &&& forall|block: int| #[trigger]
            self.done.contains(block) ==> self.chunker.start <= block < self.chunker.next
                && !self.flying(block) && !self.waiting(block)
    }

    /// No block is lost: every block handed out is fetched, in flight or
    /// waiting.
    pub open spec fn complete(self) -> bool {
        forall|block: int|
            self.chunker.start <= block < self.chunker.next ==> #[trigger] self.accounted(block)
    }

    /// The invariant of a scan.
    pub open spec fn well_formed(self) -> bool {
        &&& self.chunker.well_formed()
        &&& 1 <= self.limit
        &&& self.in_flight.len() <= self.limit
        &&& self.ranges_bounded()
        &&& self.exclusive()
        &&& self.complete()
    }

    /// The state at the start of a scan.
    pub open spec fn initial(start: int, end: int, chunk_size: int, limit: int) -> ScannerState {
        ScannerState {
            chunker: ChunkerState { start, end, next: start, chunk_size },
            backlog: Seq::empty(),
            in_flight: Seq::empty(),
            limit,
            failure: None,
            done: Set::empty(),
        }
    }

    /// Whether a fetch may be started now.
    pub open spec fn can_dispatch(self) -> bool {
        &&& self.failure is None
        &&& self.in_flight.len() < self.limit
        &&& (self.backlog.len() > 0 || !self.chunker.done())
    }

    /// The unit to start next: a piece of the range that failed last, if one
    /// waits, and else the next range of the span.
    pub open spec fn next_unit(self) -> WorkUnit {
        WorkUnit {
            range: if self.backlog.len() > 0 {
                first_chunk(
                    self.backlog.last().from_block as int,
                    self.backlog.last().to_block as int,
                    self.chunker.chunk_size,
                )
            } else {
                self.chunker.current()
            },
            chunk_size: self.chunker.chunk_size as u64,
        }
    }

    /// The state after the next unit has been handed out.
    pub open spec fn dispatched(self) -> ScannerState {
        if !self.can_dispatch() {
            self
        } else if self.backlog.len() > 0 {
            let whole = self.backlog.last();
            let piece = self.next_unit().range;
            let kept = self.backlog.drop_last();
            ScannerState {
                backlog: if piece.to_block < whole.to_block {
                    kept.push(
                        ScanRange {
                            from_block: (piece.to_block + 1) as u64,
                            to_block: whole.to_block,
                        },
                    )
                } else {
                    kept
                },
                in_flight: self.in_flight.push(self.next_unit()),
                ..self
            }
        } else {
            ScannerState {
                chunker: self.chunker.advanced(),
                in_flight: self.in_flight.push(self.next_unit()),
                ..self
            }
        }
    }

    /// What the caller is told to do.
    pub open spec fn verdict(self) -> Dispatch {
        if self.failure is Some {
            if self.in_flight.len() == 0 {
                Dispatch::Aborted(self.failure->0)
            } else {
                Dispatch::Wait
            }
        } else if self.can_dispatch() {
            Dispatch::Fetch(self.next_unit().range)
        } else if self.in_flight.len() > 0 {
            Dispatch::Wait
        } else {
            Dispatch::Finished
        }
    }

    /// Whether a unit with this range is in flight.
    pub open spec fn is_flying(self, range: ScanRange) -> bool {
        exists|i: int| 0 <= i < self.in_flight.len() && (#[trigger] self.in_flight[i]).range == range
    }

    /// The place of the unit in flight with this range. Under the invariant
    /// there is at most one.
    pub open spec fn slot_of(self, range: ScanRange) -> int {
        choose|i: int| 0 <= i < self.in_flight.len() && (#[trigger] self.in_flight[i]).range == range
    }

    /// The state with `range` moved from flight to the backlog.
    pub open spec fn shelved(self, range: ScanRange) -> ScannerState {
        ScannerState {
            in_flight: self.in_flight.remove(self.slot_of(range)),
            backlog: self.backlog.push(range),
            ..self
        }
    }

    /// The state after the scan has been given up at `range`.
    pub open spec fn failed_at(self, range: ScanRange) -> ScannerState {
        ScannerState {
            failure: if self.failure is Some {
                self.failure
            } else {
                Some(range)
            },
            ..self.shelved(range)
        }
    }

    /// The state after `outcome` has been reported for the unit with `range`.
    /// A report for a range that is not in flight changes nothing.
    pub open spec fn completed(self, range: ScanRange, outcome: UnitOutcome) -> ScannerState {
        if !self.is_flying(range) {
            self
        } else {
            match outcome {
                UnitOutcome::Fetched => ScannerState {
                    in_flight: self.in_flight.remove(self.slot_of(range)),
                    done: self.done.union(range.blocks()),
                    ..self
                },
                UnitOutcome::Transient => {
                    if self.in_flight[self.slot_of(range)].chunk_size > self.chunker.chunk_size {
                        self.shelved(range)
                    } else {
                        match self.chunker.reduced() {
                            Some(smaller) => ScannerState { chunker: smaller, ..self.shelved(range) },
                            None => self.failed_at(range),
                        }
                    }
                },
                UnitOutcome::Fatal => self.failed_at(range),
            }
        }
    }
}

/// Handing out a unit keeps the invariant.
pub proof fn lemma_dispatch_keeps_invariant(state: ScannerState)
    requires
        state.well_formed(),
    ensures
        state.dispatched().well_formed(),
        state.dispatched().done == state.done,
        state.dispatched().chunker.start == state.chunker.start,
        state.dispatched().chunker.end == state.chunker.end,
        state.can_dispatch() ==> {
            &&& state.dispatched().bounded(state.next_unit().range)
            &&& state.next_unit().range.size() <= state.chunker.chunk_size
            &&& forall|block: int|
                state.next_unit().range.contains(block) ==> !state.done.contains(block)
                    && !state.flying(block)
        },
{
    let after = state.dispatched();
    if state.can_dispatch() {
        let unit = state.next_unit();
        let piece = unit.range;
        let count = state.in_flight.len() as int;
        if state.backlog.len() > 0 {
            let last = state.backlog.len() - 1;
            assert forall|block: int|
                after.chunker.start <= block < after.chunker.next implies #[trigger] after.accounted(
                block,
            ) by {
                assert(state.accounted(block));
                if state.flying(block) {
                    let j = choose|j: int|
                        0 <= j < state.in_flight.len() && (#[trigger] state.in_flight[j]).range.contains(
                            block,
                        );
                    assert(after.in_flight[j].range.contains(block));
                } else if state.waiting(block) {
                    let i = choose|i: int|
                        0 <= i < state.backlog.len() && (#[trigger] state.backlog[i]).contains(block);
                    if i < last {
                        assert(after.backlog[i].contains(block));
                    } else if piece.contains(block) {
                        assert(after.in_flight[count].range.contains(block));
                    } else {
                        assert(after.backlog[last].contains(block));
                    }
                }
            }
        } else {
            assert forall|block: int|
                after.chunker.start <= block < after.chunker.next implies #[trigger] after.accounted(
                block,
            ) by {
                if block < state.chunker.next {
                    assert(state.accounted(block));
                    if state.flying(block) {
                        let j = choose|j: int|
                            0 <= j < state.in_flight.len() && (
                            #[trigger] state.in_flight[j]).range.contains(block);
                        assert(after.in_flight[j].range.contains(block));
                    }
                } else {
                    assert(after.in_flight[count].range.contains(block));
                }
            }
        }
    }
}

/// Under the invariant a range is in flight at most once.
pub proof fn lemma_one_slot(state: ScannerState, range: ScanRange, i: int)
    requires
        state.well_formed(),
        0 <= i < state.in_flight.len(),
        state.in_flight[i].range == range,
    ensures
        state.is_flying(range),
        state.slot_of(range) == i,
{
}

/// Moving a range from flight to the backlog keeps the invariant.
pub proof fn lemma_shelve_keeps_invariant(state: ScannerState, range: ScanRange)
    requires
        state.well_formed(),
        state.is_flying(range),
    ensures
        state.shelved(range).well_formed(),
{
    let after = state.shelved(range);
    let k = state.slot_of(range);
    let last = state.backlog.len() as int;
    assert forall|block: int|
        after.chunker.start <= block < after.chunker.next implies #[trigger] after.accounted(
        block,
    ) by {
        assert(state.accounted(block));
        if state.flying(block) {
            let j = choose|j: int|
                0 <= j < state.in_flight.len() && (#[trigger] state.in_flight[j]).range.contains(
                    block,
                );
            if j < k {
                assert(after.in_flight[j].range.contains(block));
            } else if j == k {
                assert(after.backlog[last].contains(block));
            } else {
                assert(after.in_flight[j - 1].range.contains(block));
            }
        } else if state.waiting(block) {
            let i = choose|i: int|
                0 <= i < state.backlog.len() && (#[trigger] state.backlog[i]).contains(block);
            assert(after.backlog[i].contains(block));
        }
    }
}

/// Taking in the outcome of a fetch keeps the invariant, and the fetched
/// blocks grow by exactly the range of a fetch that succeeded, none of whose
/// blocks had been fetched before.
pub proof fn lemma_completion_keeps_invariant(
    state: ScannerState,
    range: ScanRange,
    outcome: UnitOutcome,
)
    requires
        state.well_formed(),
    ensures
        state.completed(range, outcome).well_formed(),
        state.completed(range, outcome).chunker.start == state.chunker.start,
        state.completed(range, outcome).chunker.end == state.chunker.end,
        state.completed(range, outcome).done == if state.is_flying(range) && outcome is Fetched {
            state.done.union(range.blocks())
        } else {
            state.done
        },
        state.is_flying(range) ==> state.done.disjoint(range.blocks()),
{
    let after = state.completed(range, outcome);
    if state.is_flying(range) {
        let k = state.slot_of(range);
        match outcome {
            UnitOutcome::Fetched => {
                assert forall|block: int|
                    after.chunker.start <= block < after.chunker.next implies #[trigger] after.accounted(
                    block,
                ) by {
                    assert(state.accounted(block));
                    if state.flying(block) {
                        let j = choose|j: int|
                            0 <= j < state.in_flight.len() && (
                            #[trigger] state.in_flight[j]).range.contains(block);
                        if j < k {
                            assert(after.in_flight[j].range.contains(block));
                        } else if j > k {
                            assert(after.in_flight[j - 1].range.contains(block));
                        }
                    } else if state.waiting(block) {
                        let i = choose|i: int|
                            0 <= i < state.backlog.len() && (#[trigger] state.backlog[i]).contains(
                                block,
                            );
                        assert(after.backlog[i].contains(block));
                    }
                }
            },
            _ => {
                lemma_shelve_keeps_invariant(state, range);
                let shelved = state.shelved(range);
                assert(after.backlog == shelved.backlog);
                assert(after.in_flight == shelved.in_flight);
                assert forall|block: int|
                    after.chunker.start <= block < after.chunker.next implies #[trigger] after.accounted(
                    block,
                ) by {
                    assert(shelved.accounted(block));
                }
            },
        }
    }
}

/// When the scanner reports that it has finished, the fetched blocks are
/// exactly the blocks of the span.
pub proof fn lemma_finished_covers_span(state: ScannerState)
    requires
        state.well_formed(),
        state.verdict() is Finished,
    ensures
        state.done == state.chunker.span(),
        state.failure is None,
        state.in_flight.len() == 0,
        state.backlog.len() == 0,
{
    assert forall|block: int| state.chunker.span().contains(block) implies state.done.contains(
        block,
    ) by {
        assert(state.accounted(block));
    }
}

/// The scanner never leaves the caller with nothing to do. It hands out a
/// range only while no fetch has failed for good and fewer than the limit are
/// in flight; it says to wait only while a fetch is in flight, whose outcome
/// the caller can report; and it reports the end of the scan, either way,
/// only when nothing is in flight any more.
pub proof fn lemma_verdict_is_sound(state: ScannerState)
    requires
        state.well_formed(),
    ensures
        state.verdict() is Fetch ==> state.failure is None && state.in_flight.len() < state.limit,
        state.verdict() is Wait ==> state.in_flight.len() > 0,
        state.verdict() is Finished ==> state.failure is None && state.in_flight.len() == 0,
        state.verdict() matches Dispatch::Aborted(range) ==> state.failure == Some(range)
            && state.in_flight.len() == 0,
{
}

/// What happens in a scan: the caller asks what to do, or reports the
/// outcome of a fetch.
pub enum ScanEvent {
    Asked,
    Reported(ScanRange, UnitOutcome),
}

/// The state after one event.
pub open spec fn state_after_event(state: ScannerState, event: ScanEvent) -> ScannerState {
    match event {
        ScanEvent::Asked => state.dispatched(),
        ScanEvent::Reported(range, outcome) => state.completed(range, outcome),
    }
}

/// The state after a sequence of events.
pub open spec fn state_after_events(state: ScannerState, events: Seq<ScanEvent>) -> ScannerState
    decreases events.len(),
{
    if events.len() == 0 {
        state
    } else {
        state_after_event(state_after_events(state, events.drop_last()), events.last())
    }
}

/// The blocks of the ranges that were reported as fetched while in flight.
pub open spec fn blocks_reported(state: ScannerState, events: Seq<ScanEvent>) -> Set<int>
    decreases events.len(),
{
    if events.len() == 0 {
        Set::empty()
    } else {
        let before = state_after_events(state, events.drop_last());
        let earlier = blocks_reported(state, events.drop_last());
        match events.last() {
            ScanEvent::Reported(range, UnitOutcome::Fetched) if before.is_flying(range) => earlier.union(
                range.blocks(),
            ),
            _ => earlier,
        }
    }
}

/// No block is omitted, in whatever order the outcomes arrive. From the
/// start of a scan and through any sequence of events the invariant holds,
/// the fetched blocks are exactly those of the ranges reported as fetched,
/// and when the scanner reports that it has finished they are exactly the
/// span.
pub proof fn lemma_scan_omits_nothing(
    start: int,
    end: int,
    chunk_size: int,
    limit: int,
    events: Seq<ScanEvent>,
)
    requires
        0 <= start <= u64::MAX,
        0 <= end <= u64::MAX,
        1 <= chunk_size <= u64::MAX,
        1 <= limit,
    ensures
        ({
            let first = ScannerState::initial(start, end, chunk_size, limit);
            let last = state_after_events(first, events);
            &&& last.well_formed()
            &&& last.chunker.start == start
            &&& last.chunker.end == end
            &&& last.done == blocks_reported(first, events)
            &&& last.verdict() is Finished ==> blocks_reported(first, events) == first.chunker.span()
        }),
    decreases events.len(),
{
    let first = ScannerState::initial(start, end, chunk_size, limit);
    if events.len() > 0 {
        lemma_scan_omits_nothing(start, end, chunk_size, limit, events.drop_last());
        let before = state_after_events(first, events.drop_last());
        match events.last() {
            ScanEvent::Asked => {
                lemma_dispatch_keeps_invariant(before);
            },
            ScanEvent::Reported(range, outcome) => {
                lemma_completion_keeps_invariant(before, range, outcome);
            },
        }
    }
    let last = state_after_events(first, events);
    if last.verdict() is Finished {
        lemma_finished_covers_span(last);
    }
}

/// Drives a scan with a bounded number of fetches in flight.
pub struct ConcurrentScanner {
    chunker: AdaptiveChunker,
    backlog: Vec<ScanRange>,
    in_flight: Vec<WorkUnit>,
    limit: usize,
    failure: Option<ScanRange>,
    done: Ghost<Set<int>>,
}

impl View for ConcurrentScanner {
    type V = ScannerState;

    closed spec fn view(&self) -> ScannerState {
        ScannerState {
            chunker: self.chunker@,
            backlog: self.backlog@,
            in_flight: self.in_flight@,
            limit: self.limit as int,
            failure: self.failure,
            done: self.done@,
        }
    }
}

impl ConcurrentScanner {
    /// The invariant of a scanner.
    pub closed spec fn wf(&self) -> bool {
        self.chunker.wf() && self@.well_formed()
    }

    /// A well-formed scanner stands for a well-formed state.
    pub proof fn lemma_wf(&self)
        requires
            self.wf(),
        ensures
            self@.well_formed(),
    {
    }

    /// A scanner for the blocks `start..=end`, cut into ranges of at most
    /// `chunk_size` blocks, with at most `limit` fetches in flight. There is
    /// none for a chunk size or a limit of zero.
    pub fn new(start: u64, end: u64, chunk_size: u64, limit: usize) -> (made: Option<
        ConcurrentScanner,
    >)
        ensures
            made is None <==> chunk_size == 0 || limit == 0,
            made matches Some(scanner) ==> scanner.wf() && scanner@ == ScannerState::initial(
                start as int,
                end as int,
                chunk_size as int,
                limit as int,
            ),
    {
        if limit == 0 {
            return None;
        }
        match AdaptiveChunker::new(start, end, chunk_size) {
            Some(chunker) => {
                let scanner = ConcurrentScanner {
                    chunker,
                    backlog: Vec::new(),
                    in_flight: Vec::new(),
                    limit,
                    failure: None,
                    done: Ghost(Set::empty()),
                };
                proof {
                    chunker.lemma_wf();
                    assert(scanner@.backlog =~= Seq::empty());
                    assert(scanner@.in_flight =~= Seq::empty());
                }
                Some(scanner)
            },
            None => None,
        }
    }

    /// The number of fetches in flight.
    pub fn in_flight(&self) -> (count: usize)
        requires
            self.wf(),
        ensures
            count == self@.in_flight.len(),
            count <= self@.limit,
    {
        self.in_flight.len()
    }

    /// The chunk size in force.
    pub fn chunk_size(&self) -> (size: u64)
        requires
            self.wf(),
        ensures
            size == self@.chunker.chunk_size,
    {
        self.chunker.chunk_size()
    }

    /// The first range that failed for good, if the scan has been given up.
    pub fn failure(&self) -> (failure: Option<ScanRange>)
        ensures
            failure == self@.failure,
    {
        self.failure
    }

    /// Says what to do next, and counts a range that it hands out as in
    /// flight. A range is handed out only while no fetch has failed for good
    /// and fewer than the limit are in flight: first the ranges that failed,
    /// cut to the chunk size in force, then the rest of the span in
    /// ascending order.
    pub fn dispatch(&mut self) -> (next: Dispatch)
        requires
            old(self).wf(),
        ensures
            final(self).wf(),
            next == old(self)@.verdict(),
            final(self)@ == old(self)@.dispatched(),
    {
        proof {
            lemma_dispatch_keeps_invariant(self@);
            self.chunker.lemma_wf();
        }
        match self.failure {
            Some(range) => {
                return if self.in_flight.len() == 0 {
                    Dispatch::Aborted(range)
                } else {
                    Dispatch::Wait
                };
            },
            None => {},
        }
        if self.in_flight.len() >= self.limit {
            return Dispatch::Wait;
        }
        let size = self.chunker.chunk_size();
        let ghost before = self@;
        match self.backlog.pop() {
            Some(whole) => {
                assert(whole == before.backlog.last());
                assert(before.bounded(before.backlog[before.backlog.len() - 1]));
                let piece = cut(whole.from_block, whole.to_block, size);
                if piece.to_block < whole.to_block {
                    self.backlog.push(
                        ScanRange { from_block: piece.to_block + 1, to_block: whole.to_block },
                    );
                }
                self.in_flight.push(WorkUnit { range: piece, chunk_size: size });
                assert(self@.backlog =~= before.dispatched().backlog);
                assert(self@ == before.dispatched());
                Dispatch::Fetch(piece)
            },
            None => match self.chunker.current() {
                Some(piece) => {
                    self.chunker.advance();
                    self.in_flight.push(WorkUnit { range: piece, chunk_size: size });
                    assert(self@ == before.dispatched());
                    Dispatch::Fetch(piece)
                },
                None => {
                    assert(self@.backlog =~= before.backlog);
                    assert(self@ == before);
                    if self.in_flight.len() > 0 {
                        Dispatch::Wait
                    } else {
                        Dispatch::Finished
                    }
                },
            },
        }
    }

    /// Takes in the outcome of the fetch of `range` and says whether that
    /// range was in flight; a report for any other range changes nothing.
    /// A fetched range counts as done. A range that failed goes back to the
    /// backlog; after a transient failure the chunk size is halved, unless
    /// it has been halved since the range was cut, and where it cannot be
    /// halved, and after a fatal failure, the scan is given up.
    pub fn complete(&mut self, range: ScanRange, outcome: UnitOutcome) -> (known: bool)
        requires
            old(self).wf(),
        ensures
            final(self).wf(),
            known == old(self)@.is_flying(range),
            final(self)@ == old(self)@.completed(range, outcome),
    {
        let ghost before = self@;
        proof {
            lemma_completion_keeps_invariant(before, range, outcome);
            self.chunker.lemma_wf();
        }
        let mut slot: usize = 0;
        while slot < self.in_flight.len() && self.in_flight[slot].range != range
            invariant
                slot <= self.in_flight.len(),
                forall|j: int| 0 <= j < slot ==> (#[trigger] self.in_flight@[j]).range != range,
            decreases self.in_flight.len() - slot,
        {
            slot += 1;
        }
        if slot >= self.in_flight.len() {
            return false;
        }
        proof {
            lemma_one_slot(before, range, slot as int);
        }
        let unit = self.in_flight.remove(slot);
        match outcome {
            UnitOutcome::Fetched => {
                self.done = Ghost(self.done@.union(range.blocks()));
            },
            UnitOutcome::Transient => {
                self.backlog.push(range);
                if unit.chunk_size <= self.chunker.chunk_size() {
                    if !self.chunker.reduce() {
                        if self.failure.is_none() {
                            self.failure = Some(range);
                        }
                    }
                }
            },
            UnitOutcome::Fatal => {
                self.backlog.push(range);
                if self.failure.is_none() {
                    self.failure = Some(range);
                }
            },
        }
        assert(self@ == before.completed(range, outcome));
        true
    }
}

} // verus!
