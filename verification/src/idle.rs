//! The idle-wait optimizer: when the scanner may block instead of polling.
use vstd::prelude::*;

verus! {

/// How the scanner spends the time until the next pass.
#[derive(Clone, Copy, Debug, PartialEq, Eq, Structural)]
pub enum ScanMode {
    /// Keep scanning.
    Polling,
    /// Drive every output line and block until an input line goes active.
    Waiting,
}

/// Time an output line is given to settle before its inputs are read, in
/// microseconds.
pub const SETTLE_DELAY_US: u64 = 1;

/// Pause between two passes over the matrix, in microseconds.
pub const CYCLE_DELAY_US: u64 = 100;

/// Time without a pressed key after which the scanner may block, in
/// milliseconds.
pub const IDLE_THRESHOLD_MS: u64 = 1000;

/// State of the idle-wait optimizer.
#[derive(Clone, Copy, Debug, PartialEq, Eq, Structural)]
pub struct IdleWait {
    /// Whether the scanner is allowed to block at all.
    pub enabled: bool,
    /// When a key was last seen pressed, or the scanner last woke up; `None`
    /// once the matrix has been quiet for `IDLE_THRESHOLD_MS`.
    pub scan_start: Option<u64>,
}

impl IdleWait {
    /// Milliseconds from `start` to `now`; zero if the clock ran backwards.
    pub open spec fn elapsed_ms(start: u64, now: u64) -> int {
        if now >= start {
            now - start
        } else {
            0
        }
    }

    /// No activity is on record, or the last one is at least
    /// `IDLE_THRESHOLD_MS` old.
    pub open spec fn quiet_at(&self, now: u64) -> bool {
        match self.scan_start {
            None => true,
            Some(start) => Self::elapsed_ms(start, now) >= IDLE_THRESHOLD_MS,
        }
    }

    /// The decision taken at the top of a scan cycle, and the state after it.
    pub open spec fn decide(&self, now: u64) -> (IdleWait, ScanMode) {
        if self.enabled && self.quiet_at(now) {
            (IdleWait { enabled: self.enabled, scan_start: None }, ScanMode::Waiting)
        } else {
            (*self, ScanMode::Polling)
        }
    }

    /// The state after a cell was scanned at `now` and found `pressed`.
    pub open spec fn refreshed(&self, pressed: bool, now: u64) -> IdleWait {
        if self.enabled && pressed {
            IdleWait { enabled: self.enabled, scan_start: Some(now) }
        } else {
            *self
        }
    }

    /// The state after the hardware woke the scanner at `now`.
    pub open spec fn resumed(&self, now: u64) -> IdleWait {
        if self.enabled {
            IdleWait { enabled: self.enabled, scan_start: Some(now) }
        } else {
            *self
        }
    }

    /// An optimizer with no activity on record.
    pub fn new(enabled: bool) -> (idle: Self)
        ensures
            idle == (IdleWait { enabled, scan_start: None }),
    {
        IdleWait { enabled, scan_start: None }
    }

    /// Decides at the top of a scan cycle whether to poll or to block.
    ///
    /// The scanner blocks only when it is allowed to and no activity younger
    /// than `IDLE_THRESHOLD_MS` is on record; the record is then cleared.
    pub fn wait_for_key_at(&mut self, now: u64) -> (mode: ScanMode)
        ensures
            (*final(self), mode) == old(self).decide(now),
    {
        if !self.enabled {
            return ScanMode::Polling;
        }
        match self.scan_start {
            Some(start) => {
                if now < start || now - start < IDLE_THRESHOLD_MS {
                    return ScanMode::Polling;
                }
                self.scan_start = None;
            },
            None => {},
        }
        ScanMode::Waiting
    }

    /// Records that a cell was scanned at `now` and found `pressed`.
    pub fn note_key_state(&mut self, pressed: bool, now: u64)
        ensures
            *final(self) == old(self).refreshed(pressed, now),
    {
        if self.enabled && pressed {
            self.scan_start = Some(now);
        }
    }

    /// Records that the hardware woke the scanner at `now`.
    pub fn resume_at(&mut self, now: u64)
        ensures
            *final(self) == old(self).resumed(now),
    {
        if self.enabled {
            self.scan_start = Some(now);
        }
    }
}

} // verus!
