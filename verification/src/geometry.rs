//! Where a matrix sits in the keyboard, and the events its cells give rise to.
use vstd::prelude::*;

verus! {

/// One confirmed key transition, in the coordinates of the whole keyboard.
#[derive(Clone, Copy, Debug, PartialEq, Eq, Structural)]
pub struct KeyEvent {
    pub row: u8,
    pub col: u8,
    pub pressed: bool,
}

/// Which set of lines runs along the keyboard's rows.
#[derive(Clone, Copy, Debug, PartialEq, Eq, Structural)]
pub enum Wiring {
    /// Drive lines are columns and sense lines are rows.
    Col2Row,
    /// Drive lines are rows and sense lines are columns.
    Row2Col,
}

/// Number of values a key coordinate can take.
pub const COORDINATE_LIMIT: usize = 256;

/// The size of a matrix and its place in the whole keyboard.
#[derive(Clone, Copy, Debug, PartialEq, Eq, Structural)]
pub struct Geometry {
    /// Number of output lines.
    pub drive_lines: usize,
    /// Number of input lines.
    pub sense_lines: usize,
    /// Row of the whole keyboard at which this matrix starts.
    pub row_offset: usize,
    /// Column of the whole keyboard at which this matrix starts.
    pub col_offset: usize,
    pub wiring: Wiring,
}

impl Geometry {
    /// Number of keyboard rows the matrix spans.
    pub open spec fn rows(&self) -> int {
        match self.wiring {
            Wiring::Col2Row => self.sense_lines as int,
            Wiring::Row2Col => self.drive_lines as int,
        }
    }

    /// Number of keyboard columns the matrix spans.
    pub open spec fn cols(&self) -> int {
        match self.wiring {
            Wiring::Col2Row => self.drive_lines as int,
            Wiring::Row2Col => self.sense_lines as int,
        }
    }

    /// Every cell of the matrix has coordinates below `COORDINATE_LIMIT`.
    pub open spec fn valid(&self) -> bool {
        &&& self.row_offset + self.rows() <= COORDINATE_LIMIT
        &&& self.col_offset + self.cols() <= COORDINATE_LIMIT
    }

    /// (`drive_index`, `sense_index`) names a cell of the matrix.
    pub open spec fn contains(&self, drive_index: int, sense_index: int) -> bool {
        &&& 0 <= drive_index < self.drive_lines
        &&& 0 <= sense_index < self.sense_lines
    }

    /// Keyboard row of a cell.
    pub open spec fn row_of(&self, drive_index: int, sense_index: int) -> int {
        match self.wiring {
            Wiring::Col2Row => self.row_offset + sense_index,
            Wiring::Row2Col => self.row_offset + drive_index,
        }
    }

    /// Keyboard column of a cell.
    pub open spec fn col_of(&self, drive_index: int, sense_index: int) -> int {
        match self.wiring {
            Wiring::Col2Row => self.col_offset + drive_index,
            Wiring::Row2Col => self.col_offset + sense_index,
        }
    }

    /// The event that reports a cell's new state.
    pub open spec fn event_at(&self, drive_index: int, sense_index: int, pressed: bool) -> KeyEvent {
        KeyEvent {
            row: self.row_of(drive_index, sense_index) as u8,
            col: self.col_of(drive_index, sense_index) as u8,
            pressed,
        }
    }

    /// Drive line of the cell an event of this matrix came from.
    pub open spec fn drive_of(&self, event: KeyEvent) -> int {
        match self.wiring {
            Wiring::Col2Row => event.col - self.col_offset,
            Wiring::Row2Col => event.row - self.row_offset,
        }
    }

    /// Sense line of the cell an event of this matrix came from.
    pub open spec fn sense_of(&self, event: KeyEvent) -> int {
        match self.wiring {
            Wiring::Col2Row => event.row - self.row_offset,
            Wiring::Row2Col => event.col - self.col_offset,
        }
    }

    /// An event names the cell it came from: distinct cells never share
    /// coordinates.
    pub proof fn lemma_event_names_cell(&self, drive_index: int, sense_index: int, pressed: bool)
        requires
            self.valid(),
            self.contains(drive_index, sense_index),
        ensures
            self.drive_of(self.event_at(drive_index, sense_index, pressed)) == drive_index,
            self.sense_of(self.event_at(drive_index, sense_index, pressed)) == sense_index,
            self.event_at(drive_index, sense_index, pressed).pressed == pressed,
    {
    }

    /// The geometry of a matrix that spans `rows` rows and `cols` columns of
    /// the keyboard: the wiring decides which of the two are driven and which
    /// are sensed.
    pub fn new(rows: usize, cols: usize, row_offset: usize, col_offset: usize, wiring: Wiring) -> (geometry:
        Self)
        ensures
            geometry.rows() == rows,
            geometry.cols() == cols,
            geometry.row_offset == row_offset,
            geometry.col_offset == col_offset,
            geometry.wiring == wiring,
    {
        match wiring {
            Wiring::Col2Row => Geometry {
                drive_lines: cols,
                sense_lines: rows,
                row_offset,
                col_offset,
                wiring,
            },
            Wiring::Row2Col => Geometry {
                drive_lines: rows,
                sense_lines: cols,
                row_offset,
                col_offset,
                wiring,
            },
        }
    }

    /// Checks that every cell has coordinates below `COORDINATE_LIMIT`.
    pub fn is_valid(&self) -> (ok: bool)
        ensures
            ok == self.valid(),
    {
        let (rows, cols): (usize, usize) = match self.wiring {
            Wiring::Col2Row => (self.sense_lines, self.drive_lines),
            Wiring::Row2Col => (self.drive_lines, self.sense_lines),
        };
        self.row_offset <= COORDINATE_LIMIT && rows <= COORDINATE_LIMIT - self.row_offset
            && self.col_offset <= COORDINATE_LIMIT && cols <= COORDINATE_LIMIT - self.col_offset
    }

    /// The event that reports the new state of the cell at
    /// (`drive_index`, `sense_index`).
    pub fn key_event(&self, drive_index: usize, sense_index: usize, pressed: bool) -> (event:
        KeyEvent)
        requires
            self.valid(),
            self.contains(drive_index as int, sense_index as int),
        ensures
            event == self.event_at(drive_index as int, sense_index as int, pressed),
    {
        let (row, col): (usize, usize) = match self.wiring {
            Wiring::Col2Row => (self.row_offset + sense_index, self.col_offset + drive_index),
            Wiring::Row2Col => (self.row_offset + drive_index, self.col_offset + sense_index),
        };
        KeyEvent { row: row as u8, col: col as u8, pressed }
    }
}

} // verus!
