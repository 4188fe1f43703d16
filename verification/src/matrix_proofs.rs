//! What the scanner guarantees over whole passes and series of passes.
use vstd::prelude::*;
use crate::geometry::{Geometry, KeyEvent};
use crate::idle::{IdleWait, ScanMode, IDLE_THRESHOLD_MS};
use crate::debounce::{cell_observe, DebounceAlgorithm};
use crate::debounce_proofs::{
    alternates_from,
    cell_run,
    lemma_bounce_is_rejected,
    lemma_changes_alternate,
    lemma_one_change_per_level_change,
    lemma_stable_change_is_confirmed_once,
    level_changes,
    settled,
    stability,
    threshold,
    timely,
    Sample,
};
use crate::matrix::{level_of, reading_at, with_event, MatrixModel};

verus! {

/// The state the events of `log` leave the key at (`row`, `col`) in: that of
/// the last event for the key, released if there is none.
pub open spec fn last_pressed(log: Seq<KeyEvent>, row: u8, col: u8) -> bool
    decreases log.len(),
{
    if log.len() == 0 {
        false
    } else if log.last().row == row && log.last().col == col {
        log.last().pressed
    } else {
        last_pressed(log.drop_last(), row, col)
    }
}

/// Every stored key state is the one the events of `log` leave the key in.
pub open spec fn mirrors(m: MatrixModel, log: Seq<KeyEvent>) -> bool {
    forall|d: int, s: int|
        #![trigger m.cells[d][s]]
        m.geometry.contains(d, s) ==> m.cells[d][s].pressed == last_pressed(
            log,
            m.geometry.event_at(d, s, true).row,
            m.geometry.event_at(d, s, true).col,
        )
}

/// Every event of `log` reports a state other than the one the events before
/// it left the key in: presses and releases of a key take turns.
pub open spec fn alternating(log: Seq<KeyEvent>) -> bool {
    forall|k: int|
        0 <= k < log.len() ==> (#[trigger] log[k]).pressed != last_pressed(
            log.take(k),
            log[k].row,
            log[k].col,
        )
}

/// The event of `a`'s cell is scanned before that of `b`'s cell: on an
/// earlier drive line, or on the same drive line and an earlier sense line.
pub open spec fn scanned_before(geometry: Geometry, a: KeyEvent, b: KeyEvent) -> bool {
    ||| geometry.drive_of(a) < geometry.drive_of(b)
    ||| (geometry.drive_of(a) == geometry.drive_of(b) && geometry.sense_of(a) < geometry.sense_of(b))
}

/// The events come in the order in which their cells are scanned.
pub open spec fn in_scan_order(geometry: Geometry, events: Seq<KeyEvent>) -> bool {
    forall|i: int, j: int|
        0 <= i < j < events.len() ==> scanned_before(geometry, events[i], events[j])
}

/// Every pressed key among the cells scanned so far, up to but not including
/// (`drive_end`, `sense_end`), has refreshed the activity record to `now`.
pub open spec fn marked(m: MatrixModel, now: u64, drive_end: int, sense_end: int) -> bool {
    forall|d: int, s: int|
        #![trigger m.cells[d][s]]
        m.geometry.contains(d, s) && (d < drive_end || (d == drive_end && s < sense_end))
            && m.cells[d][s].pressed ==> m.idle.scan_start == Some(now)
}

/// One thing the scanner's caller does between two decisions.
pub enum Step {
    /// A pass over the matrix with the given samples.
    Scan { samples: Seq<Seq<Option<bool>>>, now: u64 },
    /// The decision at the top of a cycle.
    Decide { now: u64 },
    /// The wake-up after a wait.
    Resume { now: u64 },
}

/// The scanner after one step, and the events of the step.
pub open spec fn step(m: MatrixModel, taken: Step) -> (MatrixModel, Seq<KeyEvent>) {
    match taken {
        Step::Scan { samples, now } => m.scan(samples, now),
        Step::Decide { now } => (m.wait_for_key(now).0, Seq::empty()),
        Step::Resume { now } => (m.resume(now), Seq::empty()),
    }
}

/// The scanner after a series of steps, and all events of the series in
/// order.
pub open spec fn run(m: MatrixModel, steps: Seq<Step>) -> (MatrixModel, Seq<KeyEvent>)
    decreases steps.len(),
{
    if steps.len() == 0 {
        (m, Seq::empty())
    } else {
        let (before, log) = run(m, steps.drop_last());
        let (after, events) = step(before, steps.last());
        (after, log + events)
    }
}

/// The sample a pass holds for the key at (`d`, `s`).
pub open spec fn sample_of(samples: Seq<Seq<Option<bool>>>, now: u64, d: int, s: int) -> Sample {
    Sample { level: level_of(reading_at(samples, d, s)), at: now }
}

/// What a series of steps shows of the key at (`d`, `s`): one sample per
/// pass.
pub open spec fn key_trace(steps: Seq<Step>, d: int, s: int) -> Seq<Sample>
    decreases steps.len(),
{
    if steps.len() == 0 {
        Seq::empty()
    } else {
        let earlier = key_trace(steps.drop_last(), d, s);
        match steps.last() {
            Step::Scan { samples, now } => earlier.push(sample_of(samples, now, d, s)),
            _ => earlier,
        }
    }
}

/// The states that the events of `log` report for the key at (`row`, `col`),
/// in order.
pub open spec fn key_events(log: Seq<KeyEvent>, row: u8, col: u8) -> Seq<bool>
    decreases log.len(),
{
    if log.len() == 0 {
        Seq::empty()
    } else {
        let earlier = key_events(log.drop_last(), row, col);
        if log.last().row == row && log.last().col == col {
            earlier.push(log.last().pressed)
        } else {
            earlier
        }
    }
}

/// A change of a key, as the states it is reported with.
pub open spec fn change_events(change: Option<bool>) -> Seq<bool> {
    match change {
        Some(pressed) => seq![pressed],
        None => Seq::empty(),
    }
}

/// What the last event says of a key after one more event.
pub proof fn lemma_last_pressed_push(log: Seq<KeyEvent>, event: KeyEvent, row: u8, col: u8)
    ensures
        last_pressed(log.push(event), row, col) == (if event.row == row && event.col == col {
            event.pressed
        } else {
            last_pressed(log, row, col)
        }),
{
    assert(log.push(event).drop_last() =~= log);
}

/// Presses and releases still take turns after an event that reports a
/// state other than the key's last.
pub proof fn lemma_alternating_push(log: Seq<KeyEvent>, event: KeyEvent)
    requires
        alternating(log),
        event.pressed != last_pressed(log, event.row, event.col),
    ensures
        alternating(log.push(event)),
{
    let longer = log.push(event);
    assert forall|k: int| 0 <= k < longer.len() implies (#[trigger] longer[k]).pressed
        != last_pressed(longer.take(k), longer[k].row, longer[k].col) by {
        if k < log.len() {
            assert(longer.take(k) =~= log.take(k));
            assert(longer[k] == log[k]);
        } else {
            assert(longer.take(k) =~= log);
        }
    }
}

/// One reading changes nothing about the scanner's shape or configuration.
pub proof fn lemma_observe_keeps_shape(
    m: MatrixModel,
    d: int,
    s: int,
    reading: Option<bool>,
    now: u64,
)
    requires
        m.wf(),
        m.geometry.contains(d, s),
    ensures
        m.observe(d, s, reading, now).0.wf(),
        m.observe(d, s, reading, now).0.geometry == m.geometry,
        m.observe(d, s, reading, now).0.algorithm == m.algorithm,
        m.observe(d, s, reading, now).0.idle.enabled == m.idle.enabled,
{
}

/// Scanning part of a drive line changes nothing about the scanner's shape
/// or configuration.
pub proof fn lemma_scan_line_keeps_shape(
    m: MatrixModel,
    d: int,
    samples: Seq<Seq<Option<bool>>>,
    now: u64,
    upto: int,
)
    requires
        m.wf(),
        0 <= d < m.geometry.drive_lines,
        0 <= upto <= m.geometry.sense_lines,
    ensures
        m.scan_line(d, samples, now, upto).0.wf(),
        m.scan_line(d, samples, now, upto).0.geometry == m.geometry,
        m.scan_line(d, samples, now, upto).0.algorithm == m.algorithm,
        m.scan_line(d, samples, now, upto).0.idle.enabled == m.idle.enabled,
    decreases upto,
{
    if upto > 0 {
        lemma_scan_line_keeps_shape(m, d, samples, now, upto - 1);
        lemma_observe_keeps_shape(
            m.scan_line(d, samples, now, upto - 1).0,
            d,
            upto - 1,
            reading_at(samples, d, upto - 1),
            now,
        );
    }
}

/// Scanning the first drive lines changes nothing about the scanner's shape
/// or configuration.
pub proof fn lemma_scan_lines_keep_shape(
    m: MatrixModel,
    samples: Seq<Seq<Option<bool>>>,
    now: u64,
    upto: int,
)
    requires
        m.wf(),
        0 <= upto <= m.geometry.drive_lines,
    ensures
        m.scan_lines(samples, now, upto).0.wf(),
        m.scan_lines(samples, now, upto).0.geometry == m.geometry,
        m.scan_lines(samples, now, upto).0.algorithm == m.algorithm,
        m.scan_lines(samples, now, upto).0.idle.enabled == m.idle.enabled,
    decreases upto,
{
    if upto > 0 {
        lemma_scan_lines_keep_shape(m, samples, now, upto - 1);
        lemma_scan_line_keeps_shape(
            m.scan_lines(samples, now, upto - 1).0,
            upto - 1,
            samples,
            now,
            m.geometry.sense_lines as int,
        );
    }
}

/// One reading keeps the store in step with the events: if the store
/// mirrored the log before, it mirrors the log with the reading's event
/// after, and presses and releases still take turns.
pub proof fn lemma_observe_keeps_record(
    m: MatrixModel,
    log: Seq<KeyEvent>,
    d: int,
    s: int,
    reading: Option<bool>,
    now: u64,
)
    requires
        m.wf(),
        m.geometry.contains(d, s),
        mirrors(m, log),
        alternating(log),
    ensures
        mirrors(m.observe(d, s, reading, now).0, with_event(log, m.observe(d, s, reading, now).1)),
        alternating(with_event(log, m.observe(d, s, reading, now).1)),
{
    let (after, event) = m.observe(d, s, reading, now);
    let longer = with_event(log, event);
    match event {
        Some(e) => {
            assert forall|d2: int, s2: int|
                #![trigger after.cells[d2][s2]]
                after.geometry.contains(d2, s2) implies after.cells[d2][s2].pressed == last_pressed(
                longer,
                after.geometry.event_at(d2, s2, true).row,
                after.geometry.event_at(d2, s2, true).col,
            ) by {
                lemma_last_pressed_push(
                    log,
                    e,
                    m.geometry.event_at(d2, s2, true).row,
                    m.geometry.event_at(d2, s2, true).col,
                );
            }
            lemma_alternating_push(log, e);
        },
        None => {},
    }
}

/// Scanning part of a drive line keeps the store in step with the events.
pub proof fn lemma_scan_line_keeps_record(
    m: MatrixModel,
    log: Seq<KeyEvent>,
    d: int,
    samples: Seq<Seq<Option<bool>>>,
    now: u64,
    upto: int,
)
    requires
        m.wf(),
        0 <= d < m.geometry.drive_lines,
        0 <= upto <= m.geometry.sense_lines,
        mirrors(m, log),
        alternating(log),
    ensures
        mirrors(
            m.scan_line(d, samples, now, upto).0,
            log + m.scan_line(d, samples, now, upto).1,
        ),
        alternating(log + m.scan_line(d, samples, now, upto).1),
    decreases upto,
{
    if upto > 0 {
        lemma_scan_line_keeps_record(m, log, d, samples, now, upto - 1);
        lemma_scan_line_keeps_shape(m, d, samples, now, upto - 1);
        let (before, events) = m.scan_line(d, samples, now, upto - 1);
        let reading = reading_at(samples, d, upto - 1);
        lemma_observe_keeps_record(before, log + events, d, upto - 1, reading, now);
        let event = before.observe(d, upto - 1, reading, now).1;
        assert(with_event(log + events, event) =~= log + with_event(events, event));
    } else {
        assert(log + Seq::<KeyEvent>::empty() =~= log);
    }
}

/// Scanning the first drive lines keeps the store in step with the events.
pub proof fn lemma_scan_lines_keep_record(
    m: MatrixModel,
    log: Seq<KeyEvent>,
    samples: Seq<Seq<Option<bool>>>,
    now: u64,
    upto: int,
)
    requires
        m.wf(),
        0 <= upto <= m.geometry.drive_lines,
        mirrors(m, log),
        alternating(log),
    ensures
        mirrors(m.scan_lines(samples, now, upto).0, log + m.scan_lines(samples, now, upto).1),
        alternating(log + m.scan_lines(samples, now, upto).1),
    decreases upto,
{
    if upto > 0 {
        lemma_scan_lines_keep_record(m, log, samples, now, upto - 1);
        lemma_scan_lines_keep_shape(m, samples, now, upto - 1);
        let (before, events) = m.scan_lines(samples, now, upto - 1);
        let sense_lines = m.geometry.sense_lines as int;
        lemma_scan_line_keeps_record(before, log + events, upto - 1, samples, now, sense_lines);
        let line = before.scan_line(upto - 1, samples, now, sense_lines).1;
        assert((log + events) + line =~= log + (events + line));
    } else {
        assert(log + Seq::<KeyEvent>::empty() =~= log);
    }
}

/// A series of steps keeps the store in step with the events.
pub proof fn lemma_run_keeps_record(m: MatrixModel, log: Seq<KeyEvent>, steps: Seq<Step>)
    requires
        m.wf(),
        mirrors(m, log),
        alternating(log),
    ensures
        run(m, steps).0.wf(),
        run(m, steps).0.geometry == m.geometry,
        mirrors(run(m, steps).0, log + run(m, steps).1),
        alternating(log + run(m, steps).1),
    decreases steps.len(),
{
    if steps.len() > 0 {
        lemma_run_keeps_record(m, log, steps.drop_last());
        let (before, events) = run(m, steps.drop_last());
        match steps.last() {
            Step::Scan { samples, now } => {
                let drive_lines = before.geometry.drive_lines as int;
                lemma_scan_lines_keep_shape(before, samples, now, drive_lines);
                lemma_scan_lines_keep_record(before, log + events, samples, now, drive_lines);
                let pass = before.scan(samples, now).1;
                assert((log + events) + pass =~= log + (events + pass));
            },
            _ => {
                assert(events + Seq::<KeyEvent>::empty() =~= events);
            },
        }
    } else {
        assert(log + Seq::<KeyEvent>::empty() =~= log);
    }
}

/// The store mirrors the events: after any series of passes, decisions and
/// wake-ups on a fresh scanner, every stored key state is the one reported
/// by the last event for that key, or released if the key had no event; and
/// no event repeats the state that the event before it reported for the same
/// key.
pub proof fn lemma_store_mirrors_events(
    geometry: Geometry,
    algorithm: DebounceAlgorithm,
    idle_wait: bool,
    steps: Seq<Step>,
)
    requires
        geometry.valid(),
    ensures
        mirrors(
            run(MatrixModel::initial(geometry, algorithm, idle_wait), steps).0,
            run(MatrixModel::initial(geometry, algorithm, idle_wait), steps).1,
        ),
        alternating(run(MatrixModel::initial(geometry, algorithm, idle_wait), steps).1),
{
    let fresh = MatrixModel::initial(geometry, algorithm, idle_wait);
    let nothing = Seq::<KeyEvent>::empty();
    assert(mirrors(fresh, nothing));
    lemma_run_keeps_record(fresh, nothing, steps);
    assert(nothing + run(fresh, steps).1 =~= run(fresh, steps).1);
}

/// Scanning part of a drive line observes each cell scanned so far once and
/// leaves every other cell alone.
pub proof fn lemma_line_observes_cells(
    m: MatrixModel,
    line: int,
    samples: Seq<Seq<Option<bool>>>,
    now: u64,
    upto: int,
    d: int,
    s: int,
)
    requires
        m.wf(),
        0 <= line < m.geometry.drive_lines,
        0 <= upto <= m.geometry.sense_lines,
        m.geometry.contains(d, s),
    ensures
        m.scan_line(line, samples, now, upto).0.cells[d][s] == (if d == line && s < upto {
            cell_observe(m.algorithm, m.cells[d][s], sample_of(samples, now, d, s).level, now).0
        } else {
            m.cells[d][s]
        }),
    decreases upto,
{
    if upto > 0 {
        lemma_line_observes_cells(m, line, samples, now, upto - 1, d, s);
        lemma_scan_line_keeps_shape(m, line, samples, now, upto - 1);
    }
}

/// Scanning the first drive lines observes each of their cells once and
/// leaves every other cell alone.
pub proof fn lemma_lines_observe_cells(
    m: MatrixModel,
    samples: Seq<Seq<Option<bool>>>,
    now: u64,
    upto: int,
    d: int,
    s: int,
)
    requires
        m.wf(),
        0 <= upto <= m.geometry.drive_lines,
        m.geometry.contains(d, s),
    ensures
        m.scan_lines(samples, now, upto).0.cells[d][s] == (if d < upto {
            cell_observe(m.algorithm, m.cells[d][s], sample_of(samples, now, d, s).level, now).0
        } else {
            m.cells[d][s]
        }),
    decreases upto,
{
    if upto > 0 {
        lemma_lines_observe_cells(m, samples, now, upto - 1, d, s);
        lemma_scan_lines_keep_shape(m, samples, now, upto - 1);
        lemma_line_observes_cells(
            m.scan_lines(samples, now, upto - 1).0,
            upto - 1,
            samples,
            now,
            m.geometry.sense_lines as int,
            d,
            s,
        );
    }
}

/// A pass observes every key exactly once, with the sample taken for it.
pub proof fn lemma_pass_observes_each_key_once(
    m: MatrixModel,
    samples: Seq<Seq<Option<bool>>>,
    now: u64,
    d: int,
    s: int,
)
    requires
        m.wf(),
        m.geometry.contains(d, s),
    ensures
        m.scan(samples, now).0.cells[d][s] == cell_observe(
            m.algorithm,
            m.cells[d][s],
            sample_of(samples, now, d, s).level,
            now,
        ).0,
{
    lemma_lines_observe_cells(m, samples, now, m.geometry.drive_lines as int, d, s);
}

/// Every key goes its own way: over any series of steps, the key at
/// (`d`, `s`) ends up where the debounce engine takes a single cell that is
/// fed this key's samples, whatever happens on the other keys.
pub proof fn lemma_key_follows_its_samples(m: MatrixModel, steps: Seq<Step>, d: int, s: int)
    requires
        m.wf(),
        m.geometry.contains(d, s),
    ensures
        run(m, steps).0.wf(),
        run(m, steps).0.geometry == m.geometry,
        run(m, steps).0.algorithm == m.algorithm,
        run(m, steps).0.cells[d][s] == cell_run(m.algorithm, m.cells[d][s], key_trace(steps, d, s)).0,
    decreases steps.len(),
{
    if steps.len() > 0 {
        lemma_key_follows_its_samples(m, steps.drop_last(), d, s);
        let before = run(m, steps.drop_last()).0;
        match steps.last() {
            Step::Scan { samples, now } => {
                lemma_scan_lines_keep_shape(before, samples, now, before.geometry.drive_lines as int);
                lemma_pass_observes_each_key_once(before, samples, now, d, s);
                let earlier = key_trace(steps.drop_last(), d, s);
                let sample = sample_of(samples, now, d, s);
                assert(earlier.push(sample).drop_last() =~= earlier);
            },
            _ => {},
        }
    }
}

/// The events for a key after one more event.
pub proof fn lemma_key_events_push(log: Seq<KeyEvent>, event: KeyEvent, row: u8, col: u8)
    ensures
        key_events(log.push(event), row, col) == (if event.row == row && event.col == col {
            key_events(log, row, col).push(event.pressed)
        } else {
            key_events(log, row, col)
        }),
{
    assert(log.push(event).drop_last() =~= log);
}

/// The events for a key in two logs put end to end.
pub proof fn lemma_key_events_concat(first: Seq<KeyEvent>, second: Seq<KeyEvent>, row: u8, col: u8)
    ensures
        key_events(first + second, row, col) == key_events(first, row, col) + key_events(
            second,
            row,
            col,
        ),
    decreases second.len(),
{
    if second.len() == 0 {
        assert(first + second =~= first);
        assert(key_events(first, row, col) + Seq::<bool>::empty() =~= key_events(first, row, col));
    } else {
        lemma_key_events_concat(first, second.drop_last(), row, col);
        assert((first + second).drop_last() =~= first + second.drop_last());
        assert((first + second).last() == second.last());
        let earlier = key_events(second.drop_last(), row, col);
        assert(key_events(first, row, col) + earlier.push(second.last().pressed) =~= (key_events(
            first,
            row,
            col,
        ) + earlier).push(second.last().pressed));
    }
}

/// Among the events of part of a drive line, those for one key are the
/// change of that key, if it was scanned, and none otherwise.
pub proof fn lemma_line_events_of_key(
    m: MatrixModel,
    line: int,
    samples: Seq<Seq<Option<bool>>>,
    now: u64,
    upto: int,
    d: int,
    s: int,
)
    requires
        m.wf(),
        0 <= line < m.geometry.drive_lines,
        0 <= upto <= m.geometry.sense_lines,
        m.geometry.contains(d, s),
    ensures
        key_events(
            m.scan_line(line, samples, now, upto).1,
            m.geometry.event_at(d, s, true).row,
            m.geometry.event_at(d, s, true).col,
        ) == (if d == line && s < upto {
            change_events(
                cell_observe(m.algorithm, m.cells[d][s], sample_of(samples, now, d, s).level, now).1,
            )
        } else {
            Seq::empty()
        }),
    decreases upto,
{
    if upto > 0 {
        lemma_line_events_of_key(m, line, samples, now, upto - 1, d, s);
        lemma_scan_line_keeps_shape(m, line, samples, now, upto - 1);
        lemma_line_observes_cells(m, line, samples, now, upto - 1, line, upto - 1);
        let (before, events) = m.scan_line(line, samples, now, upto - 1);
        let event = before.observe(line, upto - 1, reading_at(samples, line, upto - 1), now).1;
        let row = m.geometry.event_at(d, s, true).row;
        let col = m.geometry.event_at(d, s, true).col;
        match event {
            Some(e) => {
                lemma_key_events_push(events, e, row, col);
                if d == line && s == upto - 1 {
                    assert(Seq::<bool>::empty().push(e.pressed) =~= seq![e.pressed]);
                }
            },
            None => {},
        }
    }
}

/// Among the events of the first drive lines, those for one key are the
/// change of that key, if it lies on one of them, and none otherwise.
pub proof fn lemma_lines_events_of_key(
    m: MatrixModel,
    samples: Seq<Seq<Option<bool>>>,
    now: u64,
    upto: int,
    d: int,
    s: int,
)
    requires
        m.wf(),
        0 <= upto <= m.geometry.drive_lines,
        m.geometry.contains(d, s),
    ensures
        key_events(
            m.scan_lines(samples, now, upto).1,
            m.geometry.event_at(d, s, true).row,
            m.geometry.event_at(d, s, true).col,
        ) == (if d < upto {
            change_events(
                cell_observe(m.algorithm, m.cells[d][s], sample_of(samples, now, d, s).level, now).1,
            )
        } else {
            Seq::empty()
        }),
    decreases upto,
{
    if upto > 0 {
        lemma_lines_events_of_key(m, samples, now, upto - 1, d, s);
        lemma_scan_lines_keep_shape(m, samples, now, upto - 1);
        lemma_lines_observe_cells(m, samples, now, upto - 1, d, s);
        let (before, events) = m.scan_lines(samples, now, upto - 1);
        let sense_lines = m.geometry.sense_lines as int;
        lemma_line_events_of_key(before, upto - 1, samples, now, sense_lines, d, s);
        let line = before.scan_line(upto - 1, samples, now, sense_lines).1;
        let row = m.geometry.event_at(d, s, true).row;
        let col = m.geometry.event_at(d, s, true).col;
        lemma_key_events_concat(events, line, row, col);
        assert(key_events(events, row, col) + Seq::<bool>::empty() =~= key_events(events, row, col));
        assert(Seq::<bool>::empty() + key_events(line, row, col) =~= key_events(line, row, col));
    }
}

/// Every key speaks for itself: over any series of steps, the events for the
/// key at (`d`, `s`) are the changes that the debounce engine makes to a
/// single cell that is fed this key's samples.
pub proof fn lemma_key_events_follow_its_samples(m: MatrixModel, steps: Seq<Step>, d: int, s: int)
    requires
        m.wf(),
        m.geometry.contains(d, s),
    ensures
        key_events(
            run(m, steps).1,
            m.geometry.event_at(d, s, true).row,
            m.geometry.event_at(d, s, true).col,
        ) == cell_run(m.algorithm, m.cells[d][s], key_trace(steps, d, s)).1,
    decreases steps.len(),
{
    let row = m.geometry.event_at(d, s, true).row;
    let col = m.geometry.event_at(d, s, true).col;
    if steps.len() > 0 {
        lemma_key_events_follow_its_samples(m, steps.drop_last(), d, s);
        lemma_key_follows_its_samples(m, steps.drop_last(), d, s);
        let (before, log) = run(m, steps.drop_last());
        let events = step(before, steps.last()).1;
        lemma_key_events_concat(log, events, row, col);
        match steps.last() {
            Step::Scan { samples, now } => {
                lemma_lines_events_of_key(
                    before,
                    samples,
                    now,
                    before.geometry.drive_lines as int,
                    d,
                    s,
                );
                let earlier = key_trace(steps.drop_last(), d, s);
                let sample = sample_of(samples, now, d, s);
                assert(earlier.push(sample).drop_last() =~= earlier);
                let changes = cell_run(m.algorithm, m.cells[d][s], earlier).1;
                let change = cell_observe(m.algorithm, before.cells[d][s], sample.level, now).1;
                match change {
                    Some(pressed) => {
                        assert(changes + seq![pressed] =~= changes.push(pressed));
                    },
                    None => {
                        assert(changes + Seq::<bool>::empty() =~= changes);
                    },
                }
            },
            _ => {
                assert(key_events(log, row, col) + Seq::<bool>::empty() =~= key_events(
                    log,
                    row,
                    col,
                ));
            },
        }
    }
}

/// Bounce is rejected: if, in the samples that a series of steps takes of a
/// settled key, the level never differs from the key's state for as long as
/// the threshold, the series has no event for that key and leaves the key's
/// state as it was.
pub proof fn lemma_scanner_rejects_bounce(m: MatrixModel, steps: Seq<Step>, d: int, s: int)
    requires
        m.wf(),
        m.geometry.contains(d, s),
        m.cells[d][s].pending is None,
        timely(m.algorithm, key_trace(steps, d, s)),
        forall|i: int|
            0 <= i < key_trace(steps, d, s).len() && key_trace(steps, d, s)[i].level
                != m.cells[d][s].pressed ==> #[trigger] stability(
                m.algorithm,
                key_trace(steps, d, s),
                i,
                m.cells[d][s].pressed,
            ) < threshold(m.algorithm),
    ensures
        key_events(
            run(m, steps).1,
            m.geometry.event_at(d, s, true).row,
            m.geometry.event_at(d, s, true).col,
        ) == Seq::<bool>::empty(),
        run(m, steps).0.cells[d][s].pressed == m.cells[d][s].pressed,
{
    lemma_key_events_follow_its_samples(m, steps, d, s);
    lemma_key_follows_its_samples(m, steps, d, s);
    assert(m.cells[d][s] == settled(m.cells[d][s].pressed));
    lemma_bounce_is_rejected(m.algorithm, m.cells[d][s].pressed, key_trace(steps, d, s));
}

/// A stable change gives exactly one event: if every sample that a series of
/// steps takes of a settled key differs from the key's state, and the last
/// of them comes when the level has differed for at least the threshold, the
/// series has exactly one event for that key, which reports the new level.
pub proof fn lemma_scanner_confirms_stable_change_once(
    m: MatrixModel,
    steps: Seq<Step>,
    d: int,
    s: int,
)
    requires
        m.wf(),
        m.geometry.contains(d, s),
        m.cells[d][s].pending is None,
        key_trace(steps, d, s).len() > 0,
        timely(m.algorithm, key_trace(steps, d, s)),
        forall|i: int|
            0 <= i < key_trace(steps, d, s).len() ==> key_trace(steps, d, s)[i].level
                != m.cells[d][s].pressed,
        stability(
            m.algorithm,
            key_trace(steps, d, s),
            key_trace(steps, d, s).len() - 1,
            m.cells[d][s].pressed,
        ) >= threshold(m.algorithm),
    ensures
        key_events(
            run(m, steps).1,
            m.geometry.event_at(d, s, true).row,
            m.geometry.event_at(d, s, true).col,
        ) == seq![!m.cells[d][s].pressed],
        run(m, steps).0.cells[d][s].pressed == !m.cells[d][s].pressed,
{
    lemma_key_events_follow_its_samples(m, steps, d, s);
    lemma_key_follows_its_samples(m, steps, d, s);
    assert(m.cells[d][s] == settled(m.cells[d][s].pressed));
    lemma_stable_change_is_confirmed_once(
        m.algorithm,
        m.cells[d][s].pressed,
        key_trace(steps, d, s),
    );
}

/// No duplicates: over any series of steps, the events for a key report
/// pressed and released in turn, starting with the opposite of the key's
/// state, and there are no more of them than changes of the key's raw level.
pub proof fn lemma_scanner_events_take_turns(m: MatrixModel, steps: Seq<Step>, d: int, s: int)
    requires
        m.wf(),
        m.geometry.contains(d, s),
    ensures
        alternates_from(
            key_events(
                run(m, steps).1,
                m.geometry.event_at(d, s, true).row,
                m.geometry.event_at(d, s, true).col,
            ),
            m.cells[d][s].pressed,
        ),
        key_events(
            run(m, steps).1,
            m.geometry.event_at(d, s, true).row,
            m.geometry.event_at(d, s, true).col,
        ).len() <= level_changes(key_trace(steps, d, s), m.cells[d][s].pressed),
{
    lemma_key_events_follow_its_samples(m, steps, d, s);
    lemma_changes_alternate(m.algorithm, m.cells[d][s], key_trace(steps, d, s));
    lemma_one_change_per_level_change(m.algorithm, m.cells[d][s], key_trace(steps, d, s));
}

/// The events of part of a drive line all come from that line, from the
/// sense lines scanned so far, in the order of their sense lines.
pub proof fn lemma_line_in_scan_order(
    m: MatrixModel,
    d: int,
    samples: Seq<Seq<Option<bool>>>,
    now: u64,
    upto: int,
)
    requires
        m.wf(),
        0 <= d < m.geometry.drive_lines,
        0 <= upto <= m.geometry.sense_lines,
    ensures
        in_scan_order(m.geometry, m.scan_line(d, samples, now, upto).1),
        forall|k: int|
            0 <= k < m.scan_line(d, samples, now, upto).1.len() ==> {
                &&& m.geometry.drive_of(#[trigger] m.scan_line(d, samples, now, upto).1[k]) == d
                &&& 0 <= m.geometry.sense_of(m.scan_line(d, samples, now, upto).1[k]) < upto
            },
    decreases upto,
{
    if upto > 0 {
        lemma_line_in_scan_order(m, d, samples, now, upto - 1);
        lemma_scan_line_keeps_shape(m, d, samples, now, upto - 1);
        let (before, events) = m.scan_line(d, samples, now, upto - 1);
        let (after, event) = before.observe(
            d,
            upto - 1,
            reading_at(samples, d, upto - 1),
            now,
        );
        match event {
            Some(e) => {
                m.geometry.lemma_event_names_cell(d, upto - 1, e.pressed);
            },
            None => {},
        }
    }
}

/// The events of the first drive lines come in scan order.
pub proof fn lemma_lines_in_scan_order(
    m: MatrixModel,
    samples: Seq<Seq<Option<bool>>>,
    now: u64,
    upto: int,
)
    requires
        m.wf(),
        0 <= upto <= m.geometry.drive_lines,
    ensures
        in_scan_order(m.geometry, m.scan_lines(samples, now, upto).1),
        forall|k: int|
            0 <= k < m.scan_lines(samples, now, upto).1.len() ==> 0 <= m.geometry.drive_of(
                #[trigger] m.scan_lines(samples, now, upto).1[k],
            ) < upto,
    decreases upto,
{
    if upto > 0 {
        lemma_lines_in_scan_order(m, samples, now, upto - 1);
        lemma_scan_lines_keep_shape(m, samples, now, upto - 1);
        let (before, events) = m.scan_lines(samples, now, upto - 1);
        lemma_line_in_scan_order(before, upto - 1, samples, now, m.geometry.sense_lines as int);
    }
}

/// Events follow scan order: the events of one pass come drive line by
/// drive line, and within a drive line sense line by sense line; no two of
/// them are for the same key.
pub proof fn lemma_events_in_scan_order(m: MatrixModel, samples: Seq<Seq<Option<bool>>>, now: u64)
    requires
        m.wf(),
    ensures
        in_scan_order(m.geometry, m.scan(samples, now).1),
{
    lemma_lines_in_scan_order(m, samples, now, m.geometry.drive_lines as int);
}

/// Scanning part of a drive line refreshes the activity record for every
/// pressed key it comes across.
pub proof fn lemma_line_marks_pressed_keys(
    m: MatrixModel,
    d: int,
    samples: Seq<Seq<Option<bool>>>,
    now: u64,
    upto: int,
)
    requires
        m.wf(),
        m.idle.enabled,
        0 <= d < m.geometry.drive_lines,
        0 <= upto <= m.geometry.sense_lines,
        marked(m, now, d, 0),
    ensures
        marked(m.scan_line(d, samples, now, upto).0, now, d, upto),
    decreases upto,
{
    if upto > 0 {
        lemma_line_marks_pressed_keys(m, d, samples, now, upto - 1);
        lemma_scan_line_keeps_shape(m, d, samples, now, upto - 1);
    }
}

/// Scanning the first drive lines refreshes the activity record for every
/// pressed key on them.
pub proof fn lemma_lines_mark_pressed_keys(
    m: MatrixModel,
    samples: Seq<Seq<Option<bool>>>,
    now: u64,
    upto: int,
)
    requires
        m.wf(),
        m.idle.enabled,
        0 <= upto <= m.geometry.drive_lines,
    ensures
        marked(m.scan_lines(samples, now, upto).0, now, upto, 0),
    decreases upto,
{
    if upto > 0 {
        lemma_lines_mark_pressed_keys(m, samples, now, upto - 1);
        lemma_scan_lines_keep_shape(m, samples, now, upto - 1);
        let before = m.scan_lines(samples, now, upto - 1).0;
        let sense_lines = m.geometry.sense_lines as int;
        lemma_line_marks_pressed_keys(before, upto - 1, samples, now, sense_lines);
        lemma_scan_line_keeps_shape(before, upto - 1, samples, now, sense_lines);
        let after = m.scan_lines(samples, now, upto).0;
        assert forall|d2: int, s2: int|
            #![trigger after.cells[d2][s2]]
            after.geometry.contains(d2, s2) && (d2 < upto || (d2 == upto && s2 < 0))
                && after.cells[d2][s2].pressed implies after.idle.scan_start == Some(now) by {
            assert(d2 < upto - 1 || (d2 == upto - 1 && s2 < sense_lines));
        }
    }
}

/// The scanner blocks only when the matrix is quiet: the decision is to
/// wait exactly when waiting is enabled and no activity younger than
/// `IDLE_THRESHOLD_MS` is on record.
pub proof fn lemma_wait_needs_quiet(m: MatrixModel, now: u64)
    ensures
        m.wait_for_key(now).1 == ScanMode::Waiting <==> m.idle.enabled && m.idle.quiet_at(now),
        m.wait_for_key(now).1 == ScanMode::Polling ==> m.wait_for_key(now).0 == m,
{
}

/// A pressed key keeps the scanner polling: after a pass at time `at` that
/// leaves any key pressed, every decision taken less than
/// `IDLE_THRESHOLD_MS` later is to poll.
pub proof fn lemma_pressed_key_defers_wait(
    m: MatrixModel,
    samples: Seq<Seq<Option<bool>>>,
    at: u64,
    now: u64,
    d: int,
    s: int,
)
    requires
        m.wf(),
        m.idle.enabled,
        m.geometry.contains(d, s),
        m.scan(samples, at).0.cells[d][s].pressed,
        IdleWait::elapsed_ms(at, now) < IDLE_THRESHOLD_MS,
    ensures
        m.scan(samples, at).0.idle.scan_start == Some(at),
        m.scan(samples, at).0.wait_for_key(now).1 == ScanMode::Polling,
{
    let drive_lines = m.geometry.drive_lines as int;
    lemma_lines_mark_pressed_keys(m, samples, at, drive_lines);
    lemma_scan_lines_keep_shape(m, samples, at, drive_lines);
}

/// Polling resumes after a wake-up: every decision taken less than
/// `IDLE_THRESHOLD_MS` after the scanner woke is to poll, and leaves the
/// scanner as it was.
pub proof fn lemma_polls_after_wake(m: MatrixModel, at: u64, now: u64)
    requires
        IdleWait::elapsed_ms(at, now) < IDLE_THRESHOLD_MS,
    ensures
        m.resume(at).wait_for_key(now) == (m.resume(at), ScanMode::Polling),
{
}

} // verus!
