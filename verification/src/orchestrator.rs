//! The orchestrator: the per-cell lifecycle Fetch → Parse → Load, and the
//! run ledger that records every cell's state, bounds how many fetches are
//! in flight at once, and isolates any failure to the cell it struck.
//!
//! The surrounding binary performs the actual downloads, extractions and
//! transactions; it reports each step's outcome here, and this module alone
//! decides what a cell's next state is.

use vstd::prelude::*;

use crate::error::IngestError;
use crate::fetch::{spec_after_status, spec_classify_response, spec_writes_file, FetchOutcome};

verus! {

/// What a finished cell ended as.
#[derive(Clone, Copy, Debug, PartialEq, Eq, Structural)]
pub enum CellResult {
    /// The cell's candles were loaded; how many rows became newly visible.
    Loaded(usize),
    /// The remote answered 404: a valid empty period. Nothing was parsed or
    /// loaded for this cell.
    Empty,
    /// The cell failed at some stage; the rest of the run is unaffected.
    Failed(IngestError),
}

/// Lifecycle state of one cell.
#[derive(Clone, Copy, Debug, PartialEq, Eq, Structural)]
pub enum CellState {
    Pending,
    Fetching,
    /// The local cache file already existed; no request was made.
    Cached,
    /// The archive body was downloaded to the cache file.
    Fetched,
    Parsing,
    Parsed,
    Loading,
    /// Terminal: the recorded result of the cell.
    Done(CellResult),
}

/// The state a cell enters when its fetch finishes: an available archive
/// (cached or downloaded) waits for parsing; a 404 or a failed fetch is
/// terminal at once, so no parse or load is ever attempted for it.
pub open spec fn spec_after_fetch(outcome: FetchOutcome) -> CellState {
    match outcome {
        FetchOutcome::Cached => CellState::Cached,
        FetchOutcome::Downloaded => CellState::Fetched,
        FetchOutcome::NotFound => CellState::Done(CellResult::Empty),
        FetchOutcome::Failed(status) => CellState::Done(
            CellResult::Failed(IngestError::FetchFailed(status)),
        ),
    }
}

/// How many cells are in the fetching state.
pub open spec fn count_fetching(cells: Seq<CellState>) -> nat
    decreases cells.len(),
{
    if cells.len() == 0 {
        0
    } else {
        count_fetching(cells.drop_last()) + if cells.last() is Fetching {
            1nat
        } else {
            0
        }
    }
}

/// Replacing one cell's state changes the fetching count by exactly the
/// difference the two states contribute.
proof fn lemma_count_update(cells: Seq<CellState>, i: int, st: CellState)
    requires
        0 <= i < cells.len(),
    ensures
        count_fetching(cells.update(i, st)) + (if cells[i] is Fetching {
            1nat
        } else {
            0
        }) == count_fetching(cells) + (if st is Fetching {
            1nat
        } else {
            0
        }),
    decreases cells.len(),
{
    let updated = cells.update(i, st);
    if i == cells.len() - 1 {
        assert(updated.drop_last() =~= cells.drop_last());
        assert(updated.last() == st);
    } else {
        assert(updated.drop_last() =~= cells.drop_last().update(i, st));
        assert(updated.last() == cells.last());
        lemma_count_update(cells.drop_last(), i, st);
    }
}

/// Mathematical image of a run ledger.
pub ghost struct RunView {
    pub cells: Seq<CellState>,
    pub cap: nat,
    pub in_flight: nat,
}

/// Well-formedness of a run ledger: the in-flight counter counts exactly
/// the cells in the fetching state, and never exceeds the cap.
pub open spec fn run_wf(r: RunView) -> bool {
    &&& r.in_flight == count_fetching(r.cells)
    &&& r.in_flight <= r.cap
}

/// The run ledger: one state per cell, and the bounded fetch counter. Every
/// constructor and operation preserves `run_wf`, so at no point are more
/// than `cap` fetches in flight.
pub struct Run {
    cells: Vec<CellState>,
    cap: usize,
    in_flight: usize,
}

impl View for Run {
    type V = RunView;

    closed spec fn view(&self) -> RunView {
        RunView { cells: self.cells@, cap: self.cap as nat, in_flight: self.in_flight as nat }
    }
}

impl Run {
    /// A fresh ledger: every cell pending, no fetch in flight.
    pub fn new(n: usize, cap: usize) -> (r: Run)
        ensures
            run_wf(r@),
            r@.cells.len() == n,
            forall|j: int| 0 <= j < n ==> r@.cells[j] == CellState::Pending,
            r@.cap == cap,
            r@.in_flight == 0,
    {
        let mut cells: Vec<CellState> = Vec::new();
        let mut i: usize = 0;
        while i < n
            invariant
                0 <= i <= n,
                cells@.len() == i,
                forall|j: int| 0 <= j < i ==> cells@[j] == CellState::Pending,
                count_fetching(cells@) == 0,
            decreases n - i,
        {
            let ghost before = cells@;
            cells.push(CellState::Pending);
            proof {
                assert(cells@.drop_last() =~= before);
            }
            i = i + 1;
        }
        Run { cells, cap, in_flight: 0 }
    }

    /// How many cells the run tracks.
    pub fn len(&self) -> (n: usize)
        ensures
            n == self@.cells.len(),
    {
        self.cells.len()
    }

    /// The state of one cell.
    pub fn state(&self, i: usize) -> (st: CellState)
        requires
            i < self@.cells.len(),
        ensures
            st == self@.cells[i as int],
    {
        self.cells[i]
    }

    /// How many fetches are in flight.
    pub fn in_flight(&self) -> (n: usize)
        ensures
            n == self@.in_flight,
    {
        self.in_flight
    }

    /// The fetch concurrency cap.
    pub fn cap(&self) -> (n: usize)
        ensures
            n == self@.cap,
    {
        self.cap
    }

    /// Whether another fetch may be dispatched without breaching the cap.
    pub fn can_start_fetch(&self) -> (r: bool)
        ensures
            r == (self@.in_flight < self@.cap),
    {
        self.in_flight < self.cap
    }

    /// Dispatch the fetch of one pending cell. Only possible while fewer
    /// fetches are in flight than the cap, so the cap is never breached.
    pub fn start_fetch(&mut self, i: usize)
        requires
            run_wf(old(self)@),
            i < old(self)@.cells.len(),
            old(self)@.cells[i as int] == CellState::Pending,
            old(self)@.in_flight < old(self)@.cap,
        ensures
            run_wf(final(self)@),
            final(self)@.cells == old(self)@.cells.update(i as int, CellState::Fetching),
            final(self)@.cap == old(self)@.cap,
            final(self)@.in_flight == old(self)@.in_flight + 1,
    {
        proof {
            lemma_count_update(self@.cells, i as int, CellState::Fetching);
        }
        self.cells.set(i, CellState::Fetching);
        self.in_flight = self.in_flight + 1;
    }

    /// Record the outcome of one cell's fetch, freeing its in-flight slot.
    /// A 404 or a failed status ends the cell at once; an available
    /// archive waits for parsing.
    pub fn finish_fetch(&mut self, i: usize, outcome: FetchOutcome)
        requires
            run_wf(old(self)@),
            i < old(self)@.cells.len(),
            old(self)@.cells[i as int] == CellState::Fetching,
        ensures
            run_wf(final(self)@),
            final(self)@.cells == old(self)@.cells.update(i as int, spec_after_fetch(outcome)),
            final(self)@.cap == old(self)@.cap,
            final(self)@.in_flight == old(self)@.in_flight - 1,
    {
        proof {
            lemma_count_update(self@.cells, i as int, spec_after_fetch(outcome));
        }
        let st = match outcome {
            FetchOutcome::Cached => CellState::Cached,
            FetchOutcome::Downloaded => CellState::Fetched,
            FetchOutcome::NotFound => CellState::Done(CellResult::Empty),
            FetchOutcome::Failed(status) => CellState::Done(
                CellResult::Failed(IngestError::FetchFailed(status)),
            ),
        };
        self.cells.set(i, st);
        self.in_flight = self.in_flight - 1;
    }

    /// Begin parsing a cell whose archive is available, cached or freshly
    /// downloaded.
    pub fn start_parse(&mut self, i: usize)
        requires
            run_wf(old(self)@),
            i < old(self)@.cells.len(),
            old(self)@.cells[i as int] == CellState::Cached || old(self)@.cells[i as int]
                == CellState::Fetched,
        ensures
            run_wf(final(self)@),
            final(self)@.cells == old(self)@.cells.update(i as int, CellState::Parsing),
            final(self)@.cap == old(self)@.cap,
            final(self)@.in_flight == old(self)@.in_flight,
    {
        proof {
            lemma_count_update(self@.cells, i as int, CellState::Parsing);
        }
        self.cells.set(i, CellState::Parsing);
    }

    /// Record the outcome of one cell's parse: success hands the cell to
    /// the loader; a parse error ends the cell.
    pub fn finish_parse(&mut self, i: usize, result: Result<(), IngestError>)
        requires
            run_wf(old(self)@),
            i < old(self)@.cells.len(),
            old(self)@.cells[i as int] == CellState::Parsing,
        ensures
            run_wf(final(self)@),
            result is Ok ==> final(self)@.cells == old(self)@.cells.update(
                i as int,
                CellState::Parsed,
            ),
            result is Err ==> final(self)@.cells == old(self)@.cells.update(
                i as int,
                CellState::Done(CellResult::Failed(result->Err_0)),
            ),
            final(self)@.cap == old(self)@.cap,
            final(self)@.in_flight == old(self)@.in_flight,
    {
        let st = match result {
            Ok(()) => CellState::Parsed,
            Err(e) => CellState::Done(CellResult::Failed(e)),
        };
        proof {
            lemma_count_update(self@.cells, i as int, st);
        }
        self.cells.set(i, st);
    }

    /// Begin loading a parsed cell.
    pub fn start_load(&mut self, i: usize)
        requires
            run_wf(old(self)@),
            i < old(self)@.cells.len(),
            old(self)@.cells[i as int] == CellState::Parsed,
        ensures
            run_wf(final(self)@),
            final(self)@.cells == old(self)@.cells.update(i as int, CellState::Loading),
            final(self)@.cap == old(self)@.cap,
            final(self)@.in_flight == old(self)@.in_flight,
    {
        proof {
            lemma_count_update(self@.cells, i as int, CellState::Loading);
        }
        self.cells.set(i, CellState::Loading);
    }

    /// Record the outcome of one cell's load: the row count on commit, or
    /// the failure after rollback. Either way the cell is done.
    pub fn finish_load(&mut self, i: usize, result: Result<usize, IngestError>)
        requires
            run_wf(old(self)@),
            i < old(self)@.cells.len(),
            old(self)@.cells[i as int] == CellState::Loading,
        ensures
            run_wf(final(self)@),
            result is Ok ==> final(self)@.cells == old(self)@.cells.update(
                i as int,
                CellState::Done(CellResult::Loaded(result->Ok_0)),
            ),
            result is Err ==> final(self)@.cells == old(self)@.cells.update(
                i as int,
                CellState::Done(CellResult::Failed(result->Err_0)),
            ),
            final(self)@.cap == old(self)@.cap,
            final(self)@.in_flight == old(self)@.in_flight,
    {
        let st = match result {
            Ok(n) => CellState::Done(CellResult::Loaded(n)),
            Err(e) => CellState::Done(CellResult::Failed(e)),
        };
        proof {
            lemma_count_update(self@.cells, i as int, st);
        }
        self.cells.set(i, st);
    }

    /// Whether every cell has reached its terminal state.
    pub fn all_done(&self) -> (r: bool)
        ensures
            r == (forall|j: int|
                0 <= j < self@.cells.len() ==> (#[trigger] self@.cells[j]) is Done),
    {
        let n = self.cells.len();
        let mut i: usize = 0;
        while i < n
            invariant
                n == self@.cells.len(),
                0 <= i <= n,
                forall|j: int| 0 <= j < i ==> (#[trigger] self@.cells[j]) is Done,
            decreases n - i,
        {
            match self.cells[i] {
                CellState::Done(_) => {},
                _ => {
                    return false;
                },
            }
            i = i + 1;
        }
        true
    }
}

/// Failure isolation: recording a new state for one cell leaves every other
/// cell exactly as it was, whatever the new state is — in particular a
/// failed cell never touches its siblings.
pub proof fn lemma_failure_isolated(cells: Seq<CellState>, i: int, st: CellState, j: int)
    requires
        0 <= i < cells.len(),
        0 <= j < cells.len(),
        j != i,
    ensures
        cells.update(i, st)[j] == cells[j],
{
}

/// A 404 is a valid empty period, not an error: its outcome is `NotFound`,
/// the cell is terminal at once with the empty result — so no parse or load
/// is ever attempted for it — and no cache file is written.
pub proof fn lemma_not_found_terminal()
    ensures
        spec_classify_response(404) == FetchOutcome::NotFound,
        spec_after_fetch(FetchOutcome::NotFound) == CellState::Done(CellResult::Empty),
        !spec_writes_file(FetchOutcome::NotFound),
        !spec_after_status(404).1,
{
}

/// The concurrency cap holds: in a well-formed run, the cells
/// simultaneously in the fetching state never number more than the cap.
pub proof fn lemma_bounded_fetches(r: RunView)
    requires
        run_wf(r),
    ensures
        count_fetching(r.cells) <= r.cap,
{
}

} // verus!
