//! The matrix scanner.
//!
//! The scanner owns the key states, the debounce engine and the idle-wait
//! optimizer. Its caller drives the output lines, samples the input lines and
//! hands the samples over; the scanner answers with the key events of the
//! pass, in scan order.
use vstd::prelude::*;
use crate::clock::clock_millis;
use crate::debounce::{
    cell_observe,
    CellModel,
    DebounceAlgorithm,
    DebounceState,
    Debouncer,
};
use crate::geometry::{Geometry, KeyEvent};
use crate::grid::{grid_filled, grid_update, is_grid, Grid};
use crate::idle::{IdleWait, ScanMode};
use crate::key_state::KeyState;

verus! {

/// The level a reading stands for: a read that failed counts as inactive.
pub open spec fn level_of(reading: Option<bool>) -> bool {
    reading == Some(true)
}

/// The samples of one pass, one row of readings per drive line.
pub open spec fn samples_view(samples: &Vec<Vec<Option<bool>>>) -> Seq<Seq<Option<bool>>> {
    Seq::new(samples@.len(), |d: int| samples@[d]@)
}

/// The reading taken for a cell; a cell without a sample has none.
pub open spec fn reading_at(
    samples: Seq<Seq<Option<bool>>>,
    drive_index: int,
    sense_index: int,
) -> Option<bool> {
    if 0 <= drive_index < samples.len() && 0 <= sense_index < samples[drive_index].len() {
        samples[drive_index][sense_index]
    } else {
        None
    }
}

/// `events` followed by `event`, if there is one.
pub open spec fn with_event(events: Seq<KeyEvent>, event: Option<KeyEvent>) -> Seq<KeyEvent> {
    match event {
        Some(e) => events.push(e),
        None => events,
    }
}

/// The scanner as a value.
#[verifier::ext_equal]
pub struct MatrixModel {
    pub geometry: Geometry,
    pub algorithm: DebounceAlgorithm,
    /// The cells, indexed by drive line, then sense line.
    pub cells: Seq<Seq<CellModel>>,
    pub idle: IdleWait,
}

impl MatrixModel {
    /// The geometry is valid and there is one cell per crossing of a drive
    /// line and a sense line.
    pub open spec fn wf(self) -> bool {
        &&& self.geometry.valid()
        &&& is_grid(
            self.cells,
            self.geometry.drive_lines as int,
            self.geometry.sense_lines as int,
        )
    }

    /// A scanner on which nothing has been observed yet: every key is
    /// released and no change is pending.
    pub open spec fn initial(
        geometry: Geometry,
        algorithm: DebounceAlgorithm,
        idle_wait: bool,
    ) -> MatrixModel {
        MatrixModel {
            geometry,
            algorithm,
            cells: grid_filled(
                geometry.drive_lines as int,
                geometry.sense_lines as int,
                CellModel { pressed: false, pending: None },
            ),
            idle: IdleWait { enabled: idle_wait, scan_start: None },
        }
    }

    /// The scanner after one reading of one cell at `now`, and the event the
    /// reading gave rise to, if any.
    pub open spec fn observe(
        self,
        drive_index: int,
        sense_index: int,
        reading: Option<bool>,
        now: u64,
    ) -> (MatrixModel, Option<KeyEvent>) {
        let (cell, change) = cell_observe(
            self.algorithm,
            self.cells[drive_index][sense_index],
            level_of(reading),
            now,
        );
        (
            MatrixModel {
                geometry: self.geometry,
                algorithm: self.algorithm,
                cells: grid_update(self.cells, drive_index, sense_index, cell),
                idle: self.idle.refreshed(cell.pressed, now),
            },
            match change {
                Some(pressed) => Some(self.geometry.event_at(drive_index, sense_index, pressed)),
                None => None,
            },
        )
    }

    /// The scanner after the first `upto` cells of drive line `drive_index`
    /// were observed in order of their sense lines, and the events of those
    /// cells in that order.
    pub open spec fn scan_line(
        self,
        drive_index: int,
        samples: Seq<Seq<Option<bool>>>,
        now: u64,
        upto: int,
    ) -> (MatrixModel, Seq<KeyEvent>)
        decreases upto,
    {
        if upto <= 0 {
            (self, Seq::empty())
        } else {
            let (before, events) = self.scan_line(drive_index, samples, now, upto - 1);
            let (after, event) = before.observe(
                drive_index,
                upto - 1,
                reading_at(samples, drive_index, upto - 1),
                now,
            );
            (after, with_event(events, event))
        }
    }

    /// The scanner after the first `upto` drive lines were scanned in order,
    /// and the events of those lines in that order.
    pub open spec fn scan_lines(
        self,
        samples: Seq<Seq<Option<bool>>>,
        now: u64,
        upto: int,
    ) -> (MatrixModel, Seq<KeyEvent>)
        decreases upto,
    {
        if upto <= 0 {
            (self, Seq::empty())
        } else {
            let (before, events) = self.scan_lines(samples, now, upto - 1);
            let (after, line) = before.scan_line(
                upto - 1,
                samples,
                now,
                self.geometry.sense_lines as int,
            );
            (after, events + line)
        }
    }

    /// The scanner after one pass over the whole matrix at `now`, and the
    /// events of the pass: drive line by drive line, and within a drive line
    /// sense line by sense line.
    pub open spec fn scan(self, samples: Seq<Seq<Option<bool>>>, now: u64) -> (
        MatrixModel,
        Seq<KeyEvent>,
    ) {
        self.scan_lines(samples, now, self.geometry.drive_lines as int)
    }

    /// The decision taken at the top of a scan cycle, and the scanner after
    /// it.
    pub open spec fn wait_for_key(self, now: u64) -> (MatrixModel, ScanMode) {
        let (idle, mode) = self.idle.decide(now);
        (
            MatrixModel {
                geometry: self.geometry,
                algorithm: self.algorithm,
                cells: self.cells,
                idle,
            },
            mode,
        )
    }

    /// The scanner after the hardware woke it at `now`.
    pub open spec fn resume(self, now: u64) -> MatrixModel {
        MatrixModel {
            geometry: self.geometry,
            algorithm: self.algorithm,
            cells: self.cells,
            idle: self.idle.resumed(now),
        }
    }
}

/// The level a reading stands for: a read that failed counts as inactive, so
/// a faulty line never stops the scan.
pub fn sample_level(reading: Option<bool>) -> (level: bool)
    ensures
        level == level_of(reading),
{
    match reading {
        Some(level) => level,
        None => false,
    }
}

/// The reading taken for a cell, if the samples hold one.
pub fn sample_at(samples: &Vec<Vec<Option<bool>>>, drive_index: usize, sense_index: usize) -> (reading:
    Option<bool>)
    ensures
        reading == reading_at(samples_view(samples), drive_index as int, sense_index as int),
{
    if drive_index < samples.len() {
        let line = &samples[drive_index];
        if sense_index < line.len() {
            line[sense_index]
        } else {
            None
        }
    } else {
        None
    }
}

/// The scanner of the central half's key matrix.
pub struct CentralMatrix {
    geometry: Geometry,
    /// The key-state store: one state per cell, indexed by drive line, then
    /// sense line.
    key_states: Grid<KeyState>,
    debouncer: Debouncer,
    idle: IdleWait,
}

impl View for CentralMatrix {
    type V = MatrixModel;

    closed spec fn view(&self) -> MatrixModel {
        MatrixModel {
            geometry: self.geometry,
            algorithm: self.debouncer@.algorithm,
            cells: Seq::new(
                self.geometry.drive_lines as nat,
                |d: int|
                    Seq::new(
                        self.geometry.sense_lines as nat,
                        |s: int|
                            CellModel {
                                pressed: self.key_states@[d][s].pressed,
                                pending: self.debouncer@.pending[d][s],
                            },
                    ),
            ),
            idle: self.idle,
        }
    }
}

impl CentralMatrix {
    /// The scanner's parts fit its geometry.
    pub closed spec fn wf(&self) -> bool {
        &&& self.geometry.valid()
        &&& self.key_states.wf()
        &&& self.key_states.rows() == self.geometry.drive_lines
        &&& self.key_states.cols() == self.geometry.sense_lines
        &&& self.debouncer.wf()
        &&& self.debouncer.drive_lines() == self.geometry.drive_lines
        &&& self.debouncer.sense_lines() == self.geometry.sense_lines
    }

    /// A well-formed scanner has a well-formed value.
    pub proof fn lemma_view_wf(&self)
        requires
            self.wf(),
        ensures
            self@.wf(),
    {
    }

    /// Builds a scanner on which every key is released, or nothing if some
    /// cell of `geometry` has a coordinate that no event can hold.
    pub fn new(geometry: Geometry, algorithm: DebounceAlgorithm, idle_wait: bool) -> (matrix:
        Option<Self>)
        ensures
            matrix is Some <==> geometry.valid(),
            matrix matches Some(m) ==> m.wf() && m@ == MatrixModel::initial(
                geometry,
                algorithm,
                idle_wait,
            ),
    {
        if !geometry.is_valid() {
            return None;
        }
        assert(geometry.drive_lines * geometry.sense_lines <= 65536) by (nonlinear_arith)
            requires
                geometry.drive_lines <= 256,
                geometry.sense_lines <= 256,
        ;
        let m = CentralMatrix {
            geometry,
            key_states: Grid::new(geometry.drive_lines, geometry.sense_lines, KeyState::new()),
            debouncer: Debouncer::new(algorithm, geometry.drive_lines, geometry.sense_lines),
            idle: IdleWait::new(idle_wait),
        };
        proof {
            assert(m@.cells =~~= MatrixModel::initial(geometry, algorithm, idle_wait).cells);
        }
        Some(m)
    }

    /// The geometry the scanner was built with.
    pub fn geometry(&self) -> (geometry: Geometry)
        ensures
            geometry == self@.geometry,
    {
        self.geometry
    }

    /// The debounce algorithm the scanner was built with.
    pub fn algorithm(&self) -> (algorithm: DebounceAlgorithm)
        ensures
            algorithm == self@.algorithm,
    {
        self.debouncer.algorithm()
    }

    /// The state of the idle-wait optimizer.
    pub fn idle(&self) -> (idle: IdleWait)
        ensures
            idle == self@.idle,
    {
        self.idle
    }

    /// The stored state of the key at (`drive_index`, `sense_index`).
    pub fn get_key_state(&self, drive_index: usize, sense_index: usize) -> (state: KeyState)
        requires
            self.wf(),
            self@.geometry.contains(drive_index as int, sense_index as int),
        ensures
            state == (KeyState {
                pressed: self@.cells[drive_index as int][sense_index as int].pressed,
            }),
    {
        self.key_states.get(drive_index, sense_index)
    }

    /// Takes in one reading of one cell at `now`: debounces it, and if the
    /// key changed, stores the new state and returns the event for it.
    pub fn scan_cell_at(
        &mut self,
        drive_index: usize,
        sense_index: usize,
        reading: Option<bool>,
        now: u64,
    ) -> (event: Option<KeyEvent>)
        requires
            old(self).wf(),
            old(self)@.geometry.contains(drive_index as int, sense_index as int),
        ensures
            final(self).wf(),
            (final(self)@, event) == old(self)@.observe(
                drive_index as int,
                sense_index as int,
                reading,
                now,
            ),
    {
        let level = sample_level(reading);
        let mut state = self.key_states.get(drive_index, sense_index);
        let verdict = self.debouncer.detect_change_at(
            sense_index,
            drive_index,
            level,
            &state,
            now,
        );
        let mut event: Option<KeyEvent> = None;
        match verdict {
            DebounceState::Debounced => {
                state.toggle_pressed();
                self.key_states.set(drive_index, sense_index, state);
                event = Some(self.geometry.key_event(drive_index, sense_index, state.pressed));
            },
            _ => {},
        }
        self.idle.note_key_state(state.pressed, now);
        proof {
            let target = old(self)@.observe(drive_index as int, sense_index as int, reading, now).0;
            self.key_states.lemma_shape();
            self.debouncer.lemma_shape();
            old(self).key_states.lemma_shape();
            old(self).debouncer.lemma_shape();
            assert forall|d: int| 0 <= d < self.geometry.drive_lines implies #[trigger] self@.cells[d]
                =~= target.cells[d] by {
                assert forall|s: int| 0 <= s < self.geometry.sense_lines implies self@.cells[d][s]
                    == target.cells[d][s] by {}
            }
            assert(self@.cells =~= target.cells);
        }
        event
    }

    /// Takes in the samples of one pass over the matrix, all taken at `now`,
    /// and returns the key events of the pass in scan order: drive line by
    /// drive line, and within a drive line sense line by sense line.
    ///
    /// `samples[d][s]` is the reading of sense line `s` while drive line `d`
    /// was active; a missing sample counts as a failed read.
    pub fn scan_at(&mut self, samples: &Vec<Vec<Option<bool>>>, now: u64) -> (events: Vec<KeyEvent>)
        requires
            old(self).wf(),
        ensures
            final(self).wf(),
            (final(self)@, events@) == old(self)@.scan(samples_view(samples), now),
    {
        let mut events: Vec<KeyEvent> = Vec::new();
        let drive_lines: usize = self.geometry.drive_lines;
        let sense_lines: usize = self.geometry.sense_lines;
        let ghost start = self@;
        let ghost taken = samples_view(samples);
        let mut d: usize = 0;
        while d < drive_lines
            invariant
                self.wf(),
                d <= drive_lines,
                start.geometry == self@.geometry,
                drive_lines == start.geometry.drive_lines,
                sense_lines == start.geometry.sense_lines,
                taken == samples_view(samples),
                (self@, events@) == start.scan_lines(taken, now, d as int),
            decreases drive_lines - d,
        {
            let ghost line_start = self@;
            let ghost before = events@;
            let mut s: usize = 0;
            while s < sense_lines
                invariant
                    self.wf(),
                    d < drive_lines,
                    s <= sense_lines,
                    start.geometry == self@.geometry,
                    line_start.geometry == self@.geometry,
                    drive_lines == start.geometry.drive_lines,
                    sense_lines == start.geometry.sense_lines,
                    taken == samples_view(samples),
                    self@ == line_start.scan_line(d as int, taken, now, s as int).0,
                    events@ == before + line_start.scan_line(d as int, taken, now, s as int).1,
                decreases sense_lines - s,
            {
                let reading = sample_at(samples, d, s);
                let event = self.scan_cell_at(d, s, reading, now);
                match event {
                    Some(e) => {
                        events.push(e);
                    },
                    None => {},
                }
                s = s + 1;
                proof {
                    assert(events@ =~= before + line_start.scan_line(
                        d as int,
                        taken,
                        now,
                        s as int,
                    ).1);
                }
            }
            d = d + 1;
        }
        events
    }

    /// Takes in the samples of one pass over the matrix, stamps them with
    /// the present time, read from the firmware clock, and returns the key
    /// events of the pass in scan order.
    pub fn scan(&mut self, samples: &Vec<Vec<Option<bool>>>) -> (events: Vec<KeyEvent>)
        requires
            old(self).wf(),
        ensures
            final(self).wf(),
            exists|now: u64|
                (final(self)@, events@) == #[trigger] old(self)@.scan(samples_view(samples), now),
    {
        let now: u64 = clock_millis();
        self.scan_at(samples, now)
    }

    /// Decides at the top of a scan cycle, at time `now`, whether to poll or
    /// to block until a key goes down.
    pub fn wait_for_key_at(&mut self, now: u64) -> (mode: ScanMode)
        requires
            old(self).wf(),
        ensures
            final(self).wf(),
            (final(self)@, mode) == old(self)@.wait_for_key(now),
    {
        self.idle.wait_for_key_at(now)
    }

    /// Decides at the top of a scan cycle, at the present time read from the
    /// firmware clock, whether to poll or to block until a key goes down.
    pub fn wait_for_key(&mut self) -> (mode: ScanMode)
        requires
            old(self).wf(),
        ensures
            final(self).wf(),
            exists|now: u64| (final(self)@, mode) == #[trigger] old(self)@.wait_for_key(now),
    {
        let now: u64 = clock_millis();
        self.wait_for_key_at(now)
    }

    /// Records that the hardware woke the scanner at `now`.
    pub fn resume_at(&mut self, now: u64)
        requires
            old(self).wf(),
        ensures
            final(self).wf(),
            final(self)@ == old(self)@.resume(now),
    {
        self.idle.resume_at(now);
    }

    /// Records that the hardware woke the scanner just now, by the firmware
    /// clock.
    pub fn resume(&mut self)
        requires
            old(self).wf(),
        ensures
            final(self).wf(),
            exists|now: u64| final(self)@ == #[trigger] old(self)@.resume(now),
    {
        let now: u64 = clock_millis();
        self.resume_at(now);
    }
}

} // verus!
