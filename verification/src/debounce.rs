//! The debounce engine: one small state machine per matrix cell.
//!
//! A cell whose raw level differs from its stored key state has a change
//! pending. The engine keeps one mark per pending change and confirms the
//! change once the mark shows enough confidence: enough elapsed time for the
//! default algorithm, enough consecutive samples for the fast one. A sample
//! that agrees with the stored state drops the pending change.
use vstd::prelude::*;
use crate::clock::clock_millis;
use crate::grid::{grid_filled, grid_update, is_grid, Grid};
use crate::key_state::KeyState;

verus! {

/// What one observation of a cell amounts to.
#[derive(Clone, Copy, Debug, PartialEq, Eq, Structural)]
pub enum DebounceState {
    /// The raw level differed from the stored state for long enough: the key
    /// has changed.
    Debounced,
    /// The raw level differs from the stored state, but not yet for long
    /// enough.
    Ignored,
    /// The raw level agrees with the stored state.
    Unchanged,
}

/// How confidence in a pending change is measured.
#[derive(Clone, Copy, Debug, PartialEq, Eq, Structural)]
pub enum DebounceAlgorithm {
    /// The raw level must have differed from the stored state for at least
    /// `window_ms` milliseconds.
    Default { window_ms: u64 },
    /// The raw level must have differed from the stored state in at least
    /// `samples` consecutive observations.
    Fast { samples: u64 },
}

/// A usual debounce window for the default algorithm, in milliseconds.
pub const DEFAULT_WINDOW_MS: u64 = 5;

/// A usual sample count for the fast algorithm.
pub const FAST_SAMPLES: u64 = 3;

/// The mark of a pending change after one more differing sample at `now`.
///
/// For the fast algorithm the mark counts the differing samples seen in a
/// row. For the default algorithm it is the time of the first of them; a mark
/// that lies after `now` is replaced by `now`.
pub open spec fn advance(algorithm: DebounceAlgorithm, pending: Option<u64>, now: u64) -> u64 {
    match algorithm {
        DebounceAlgorithm::Fast { .. } => match pending {
            None => 1,
            Some(count) => if count < u64::MAX {
                (count + 1) as u64
            } else {
                count
            },
        },
        DebounceAlgorithm::Default { .. } => match pending {
            Some(since) => if since <= now {
                since
            } else {
                now
            },
            None => now,
        },
    }
}

/// Whether a pending change with mark `mark` is confirmed at `now`.
pub open spec fn confirms(algorithm: DebounceAlgorithm, mark: u64, now: u64) -> bool {
    match algorithm {
        DebounceAlgorithm::Fast { samples } => mark >= samples,
        DebounceAlgorithm::Default { window_ms } => now - mark >= window_ms,
    }
}

/// One observation of one cell: the cell's new pending mark and the verdict.
///
/// `pressed` is the stored key state, `level` the raw level just read.
pub open spec fn debounce_step(
    algorithm: DebounceAlgorithm,
    pending: Option<u64>,
    pressed: bool,
    level: bool,
    now: u64,
) -> (Option<u64>, DebounceState) {
    if level == pressed {
        (None, DebounceState::Unchanged)
    } else {
        let mark = advance(algorithm, pending, now);
        if confirms(algorithm, mark, now) {
            (None, DebounceState::Debounced)
        } else {
            (Some(mark), DebounceState::Ignored)
        }
    }
}

/// One cell of the matrix: its stored key state and the mark of its pending
/// change, if one is pending.
pub struct CellModel {
    pub pressed: bool,
    pub pending: Option<u64>,
}

/// One observation of one cell, with the key state kept in step: the cell
/// afterwards and, if the key changed, its new state.
pub open spec fn cell_observe(
    algorithm: DebounceAlgorithm,
    cell: CellModel,
    level: bool,
    now: u64,
) -> (CellModel, Option<bool>) {
    let (mark, verdict) = debounce_step(algorithm, cell.pending, cell.pressed, level, now);
    if verdict == DebounceState::Debounced {
        (CellModel { pressed: !cell.pressed, pending: mark }, Some(!cell.pressed))
    } else {
        (CellModel { pressed: cell.pressed, pending: mark }, None)
    }
}

/// The debounce engine as a value: its algorithm and one pending mark per
/// cell, indexed by drive line, then sense line.
pub struct DebouncerModel {
    pub algorithm: DebounceAlgorithm,
    pub pending: Seq<Seq<Option<u64>>>,
}

impl DebouncerModel {
    /// An engine with no change pending anywhere.
    pub open spec fn initial(
        algorithm: DebounceAlgorithm,
        drive_lines: int,
        sense_lines: int,
    ) -> DebouncerModel {
        DebouncerModel { algorithm, pending: grid_filled(drive_lines, sense_lines, None) }
    }

    /// The engine and the verdict after observing `raw_level` on one cell
    /// whose stored state is `pressed`.
    pub open spec fn detect(
        self,
        sense_index: int,
        drive_index: int,
        raw_level: bool,
        pressed: bool,
        now: u64,
    ) -> (DebouncerModel, DebounceState) {
        let (mark, verdict) = debounce_step(
            self.algorithm,
            self.pending[drive_index][sense_index],
            pressed,
            raw_level,
            now,
        );
        (
            DebouncerModel {
                algorithm: self.algorithm,
                pending: grid_update(self.pending, drive_index, sense_index, mark),
            },
            verdict,
        )
    }
}

/// The debounce engine for a whole matrix.
pub struct Debouncer {
    algorithm: DebounceAlgorithm,
    pending: Grid<Option<u64>>,
}

impl View for Debouncer {
    type V = DebouncerModel;

    closed spec fn view(&self) -> DebouncerModel {
        DebouncerModel { algorithm: self.algorithm, pending: self.pending@ }
    }
}

impl Debouncer {
    /// The engine's storage is consistent.
    pub closed spec fn wf(&self) -> bool {
        self.pending.wf()
    }

    /// Number of drive lines the engine was built for.
    pub closed spec fn drive_lines(&self) -> int {
        self.pending.rows()
    }

    /// Number of sense lines the engine was built for.
    pub closed spec fn sense_lines(&self) -> int {
        self.pending.cols()
    }

    /// The engine holds one mark per cell.
    pub proof fn lemma_shape(&self)
        ensures
            is_grid(self@.pending, self.drive_lines(), self.sense_lines()),
    {
        self.pending.lemma_shape();
    }

    /// Builds an engine with no change pending anywhere.
    pub fn new(algorithm: DebounceAlgorithm, drive_lines: usize, sense_lines: usize) -> (engine:
        Self)
        requires
            drive_lines * sense_lines <= usize::MAX,
        ensures
            engine.wf(),
            engine.drive_lines() == drive_lines,
            engine.sense_lines() == sense_lines,
            engine@ == DebouncerModel::initial(algorithm, drive_lines as int, sense_lines as int),
    {
        Debouncer { algorithm, pending: Grid::new(drive_lines, sense_lines, None) }
    }

    /// The algorithm the engine was built with.
    pub fn algorithm(&self) -> (algorithm: DebounceAlgorithm)
        ensures
            algorithm == self@.algorithm,
    {
        self.algorithm
    }

    /// Observes `raw_level` on one cell at time `now` and says whether the
    /// key has changed.
    ///
    /// The verdict is `Debounced` only when the raw level differs from
    /// `previous_state`, so a held key is never confirmed twice.
    pub fn detect_change_at(
        &mut self,
        sense_index: usize,
        drive_index: usize,
        raw_level: bool,
        previous_state: &KeyState,
        now: u64,
    ) -> (verdict: DebounceState)
        requires
            old(self).wf(),
            drive_index < old(self).drive_lines(),
            sense_index < old(self).sense_lines(),
        ensures
            final(self).wf(),
            final(self).drive_lines() == old(self).drive_lines(),
            final(self).sense_lines() == old(self).sense_lines(),
            (final(self)@, verdict) == old(self)@.detect(
                sense_index as int,
                drive_index as int,
                raw_level,
                previous_state.pressed,
                now,
            ),
            verdict == DebounceState::Debounced ==> raw_level != previous_state.pressed,
    {
        let pending = self.pending.get(drive_index, sense_index);
        if raw_level == previous_state.pressed {
            self.pending.set(drive_index, sense_index, None);
            return DebounceState::Unchanged;
        }
        let mark: u64 = match self.algorithm {
            DebounceAlgorithm::Fast { .. } => match pending {
                None => 1,
                Some(count) => if count < u64::MAX {
                    count + 1
                } else {
                    count
                },
            },
            DebounceAlgorithm::Default { .. } => match pending {
                Some(since) => if since <= now {
                    since
                } else {
                    now
                },
                None => now,
            },
        };
        let confirmed = match self.algorithm {
            DebounceAlgorithm::Fast { samples } => mark >= samples,
            DebounceAlgorithm::Default { window_ms } => now - mark >= window_ms,
        };
        if confirmed {
            self.pending.set(drive_index, sense_index, None);
            DebounceState::Debounced
        } else {
            self.pending.set(drive_index, sense_index, Some(mark));
            DebounceState::Ignored
        }
    }

    /// Observes `raw_level` on one cell at the present time, read from the
    /// firmware clock, and says whether the key has changed.
    pub fn detect_change_with_debounce(
        &mut self,
        sense_index: usize,
        drive_index: usize,
        raw_level: bool,
        previous_state: &KeyState,
    ) -> (verdict: DebounceState)
        requires
            old(self).wf(),
            drive_index < old(self).drive_lines(),
            sense_index < old(self).sense_lines(),
        ensures
            final(self).wf(),
            final(self).drive_lines() == old(self).drive_lines(),
            final(self).sense_lines() == old(self).sense_lines(),
            exists|now: u64|
                (final(self)@, verdict) == #[trigger] old(self)@.detect(
                    sense_index as int,
                    drive_index as int,
                    raw_level,
                    previous_state.pressed,
                    now,
                ),
            verdict == DebounceState::Debounced ==> raw_level != previous_state.pressed,
    {
        let now: u64 = clock_millis();
        self.detect_change_at(sense_index, drive_index, raw_level, previous_state, now)
    }
}

} // verus!
