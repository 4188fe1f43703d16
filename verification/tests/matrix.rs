use key_matrix::debounce::DebounceAlgorithm;
use key_matrix::geometry::{Geometry, KeyEvent, Wiring};
use key_matrix::idle::{IdleWait, ScanMode};
use key_matrix::matrix::{sample_at, sample_level, CentralMatrix};

fn matrix(
    rows: usize,
    cols: usize,
    wiring: Wiring,
    algorithm: DebounceAlgorithm,
    idle_wait: bool,
) -> CentralMatrix {
    match CentralMatrix::new(Geometry::new(rows, cols, 0, 0, wiring), algorithm, idle_wait) {
        Some(m) => m,
        None => panic!("geometry refused"),
    }
}

fn one_key(algorithm: DebounceAlgorithm) -> CentralMatrix {
    matrix(1, 1, Wiring::Col2Row, algorithm, false)
}

fn level(active: bool) -> Vec<Vec<Option<bool>>> {
    vec![vec![Some(active)]]
}

fn press(row: u8, col: u8) -> KeyEvent {
    KeyEvent { row, col, pressed: true }
}

fn release(row: u8, col: u8) -> KeyEvent {
    KeyEvent { row, col, pressed: false }
}

#[test]
fn fast_three_samples_scenario() {
    let mut m = one_key(DebounceAlgorithm::Fast { samples: 3 });
    let levels = [true, false, true, true, true];
    let mut emitted: Vec<(usize, KeyEvent)> = Vec::new();
    for (n, active) in levels.iter().enumerate() {
        for event in m.scan_at(&level(*active), n as u64) {
            emitted.push((n, event));
        }
    }
    assert_eq!(emitted, vec![(4, press(0, 0))]);
    assert!(m.get_key_state(0, 0).pressed);
}

#[test]
fn bounce_shorter_than_the_sample_count_gives_no_event() {
    let mut m = one_key(DebounceAlgorithm::Fast { samples: 3 });
    let levels = [true, true, false, true, false, false, true, true, false, true];
    for (n, active) in levels.iter().enumerate() {
        assert_eq!(m.scan_at(&level(*active), n as u64), vec![]);
    }
    assert!(!m.get_key_state(0, 0).pressed);
}

#[test]
fn bounce_shorter_than_the_window_gives_no_event() {
    let mut m = one_key(DebounceAlgorithm::Default { window_ms: 5 });
    let samples = [
        (true, 0),
        (true, 4),
        (false, 5),
        (true, 6),
        (true, 8),
        (true, 10),
        (false, 11),
        (true, 20),
        (true, 24),
        (false, 25),
    ];
    for (active, at) in samples.iter() {
        assert_eq!(m.scan_at(&level(*active), *at), vec![]);
    }
    assert!(!m.get_key_state(0, 0).pressed);
}

#[test]
fn stable_press_gives_exactly_one_event_fast() {
    let mut m = one_key(DebounceAlgorithm::Fast { samples: 3 });
    let mut emitted: Vec<KeyEvent> = Vec::new();
    for n in 0..20 {
        emitted.extend(m.scan_at(&level(true), n));
    }
    assert_eq!(emitted, vec![press(0, 0)]);
}

#[test]
fn stable_press_gives_exactly_one_event_default() {
    let mut m = one_key(DebounceAlgorithm::Default { window_ms: 5 });
    let mut emitted: Vec<(u64, KeyEvent)> = Vec::new();
    for at in 100..130 {
        for event in m.scan_at(&level(true), at) {
            emitted.push((at, event));
        }
    }
    assert_eq!(emitted, vec![(105, press(0, 0))]);
}

#[test]
fn stable_release_gives_exactly_one_event() {
    let mut m = one_key(DebounceAlgorithm::Fast { samples: 2 });
    assert_eq!(m.scan_at(&level(true), 0), vec![]);
    assert_eq!(m.scan_at(&level(true), 1), vec![press(0, 0)]);
    let mut emitted: Vec<KeyEvent> = Vec::new();
    for n in 2..12 {
        emitted.extend(m.scan_at(&level(false), n));
    }
    assert_eq!(emitted, vec![release(0, 0)]);
    assert!(!m.get_key_state(0, 0).pressed);
}

#[test]
fn store_mirrors_the_last_event_of_each_key() {
    let mut m = matrix(2, 3, Wiring::Row2Col, DebounceAlgorithm::Fast { samples: 2 }, false);
    let passes: Vec<Vec<Vec<Option<bool>>>> = vec![
        vec![vec![Some(true), Some(false), Some(true)], vec![Some(false), Some(true), Some(false)]],
        vec![vec![Some(true), Some(false), Some(false)], vec![Some(false), Some(true), Some(true)]],
        vec![vec![Some(false), Some(true), Some(false)], vec![Some(false), Some(true), Some(true)]],
        vec![vec![Some(false), Some(true), Some(true)], vec![Some(true), Some(false), Some(true)]],
        vec![vec![Some(true), Some(true), Some(true)], vec![Some(true), Some(false), Some(true)]],
        vec![vec![Some(true), Some(false), Some(true)], vec![Some(true), Some(false), Some(false)]],
        vec![vec![Some(true), Some(false), Some(true)], vec![Some(false), Some(false), Some(false)]],
    ];
    let mut last: [[Option<bool>; 3]; 2] = [[None; 3]; 2];
    let mut count = 0;
    for (n, samples) in passes.iter().enumerate() {
        for event in m.scan_at(samples, n as u64) {
            let before = last[event.row as usize][event.col as usize];
            assert_ne!(before, Some(event.pressed));
            assert!(before.is_some() || event.pressed);
            last[event.row as usize][event.col as usize] = Some(event.pressed);
            count += 1;
        }
        for d in 0..2 {
            for s in 0..3 {
                assert_eq!(m.get_key_state(d, s).pressed, last[d][s].unwrap_or(false));
            }
        }
    }
    assert_eq!(count, 11);
    assert!(m.get_key_state(0, 0).pressed);
    assert!(!m.get_key_state(0, 1).pressed);
    assert!(m.get_key_state(0, 2).pressed);
    assert!(m.get_key_state(1, 0).pressed);
    assert!(!m.get_key_state(1, 1).pressed);
    assert!(!m.get_key_state(1, 2).pressed);
}

#[test]
fn simultaneous_presses_come_in_scan_order_row2col() {
    let geometry = Geometry::new(2, 3, 4, 8, Wiring::Row2Col);
    let mut m = CentralMatrix::new(geometry, DebounceAlgorithm::Fast { samples: 1 }, false).unwrap();
    let all = vec![vec![Some(true); 3]; 2];
    assert_eq!(
        m.scan_at(&all, 0),
        vec![press(4, 8), press(4, 9), press(4, 10), press(5, 8), press(5, 9), press(5, 10)]
    );
    assert_eq!(m.scan_at(&all, 1), vec![]);
    let some = vec![vec![Some(true), Some(false), Some(true)], vec![Some(false), Some(true), Some(false)]];
    assert_eq!(m.scan_at(&some, 2), vec![release(4, 9), release(5, 8), release(5, 10)]);
}

#[test]
fn simultaneous_presses_come_in_scan_order_col2row() {
    let geometry = Geometry::new(2, 3, 4, 8, Wiring::Col2Row);
    let mut m = CentralMatrix::new(geometry, DebounceAlgorithm::Fast { samples: 1 }, false).unwrap();
    assert_eq!(m.geometry(), geometry);
    let all = vec![vec![Some(true); 2]; 3];
    assert_eq!(
        m.scan_at(&all, 0),
        vec![press(4, 8), press(5, 8), press(4, 9), press(5, 9), press(4, 10), press(5, 10)]
    );
    let some = vec![vec![Some(true), Some(false)], vec![Some(true), Some(true)], vec![Some(false), Some(true)]];
    assert_eq!(m.scan_at(&some, 1), vec![release(5, 8), release(4, 10)]);
}

#[test]
fn press_and_release_take_turns() {
    let mut m = one_key(DebounceAlgorithm::Fast { samples: 2 });
    let levels = [
        true, true, true, false, true, false, false, false, true, true, false, true, true, false,
        false, true,
    ];
    let mut emitted: Vec<bool> = Vec::new();
    for (n, active) in levels.iter().enumerate() {
        for event in m.scan_at(&level(*active), n as u64) {
            emitted.push(event.pressed);
        }
    }
    assert_eq!(emitted, vec![true, false, true, false]);
}

#[test]
fn rapid_press_release_press_within_the_window_gives_one_press() {
    let mut m = one_key(DebounceAlgorithm::Default { window_ms: 5 });
    let samples = [(true, 0), (false, 1), (true, 2), (true, 4), (true, 6), (true, 7), (true, 9)];
    let mut emitted: Vec<(u64, bool)> = Vec::new();
    for (active, at) in samples.iter() {
        for event in m.scan_at(&level(*active), *at) {
            emitted.push((*at, event.pressed));
        }
    }
    assert_eq!(emitted, vec![(7, true)]);
}

#[test]
fn failed_read_counts_as_inactive() {
    assert!(sample_level(Some(true)));
    assert!(!sample_level(Some(false)));
    assert!(!sample_level(None));
    let mut m = one_key(DebounceAlgorithm::Fast { samples: 1 });
    assert_eq!(m.scan_at(&vec![vec![None]], 0), vec![]);
    assert_eq!(m.scan_at(&level(true), 1), vec![press(0, 0)]);
    assert_eq!(m.scan_at(&vec![vec![None]], 2), vec![release(0, 0)]);
}

#[test]
fn single_failed_read_is_absorbed_by_the_debouncer() {
    let mut m = one_key(DebounceAlgorithm::Fast { samples: 2 });
    assert_eq!(m.scan_at(&level(true), 0), vec![]);
    assert_eq!(m.scan_at(&level(true), 1), vec![press(0, 0)]);
    assert_eq!(m.scan_at(&vec![vec![None]], 2), vec![]);
    assert_eq!(m.scan_at(&level(true), 3), vec![]);
    assert!(m.get_key_state(0, 0).pressed);
}

#[test]
fn missing_samples_count_as_failed_reads() {
    let samples = vec![vec![Some(true), Some(false)], vec![Some(true)]];
    assert_eq!(sample_at(&samples, 0, 0), Some(true));
    assert_eq!(sample_at(&samples, 0, 1), Some(false));
    assert_eq!(sample_at(&samples, 1, 0), Some(true));
    assert_eq!(sample_at(&samples, 1, 1), None);
    assert_eq!(sample_at(&samples, 2, 0), None);
    let mut m = matrix(3, 2, Wiring::Row2Col, DebounceAlgorithm::Fast { samples: 1 }, false);
    assert_eq!(m.scan_at(&samples, 0), vec![press(0, 0), press(1, 0)]);
    assert_eq!(m.scan_at(&Vec::new(), 1), vec![release(0, 0), release(1, 0)]);
}

#[test]
fn surplus_samples_are_not_looked_at() {
    let mut m = one_key(DebounceAlgorithm::Fast { samples: 1 });
    let samples = vec![vec![Some(false), Some(true)], vec![Some(true), Some(true)]];
    assert_eq!(m.scan_at(&samples, 0), vec![]);
}

#[test]
fn matrix_without_lines_has_no_events() {
    let mut none = matrix(0, 0, Wiring::Col2Row, DebounceAlgorithm::Fast { samples: 1 }, false);
    assert_eq!(none.scan_at(&vec![vec![Some(true)]], 0), vec![]);
    let mut no_rows = matrix(0, 4, Wiring::Col2Row, DebounceAlgorithm::Fast { samples: 1 }, false);
    assert_eq!(no_rows.scan_at(&vec![vec![Some(true)]; 4], 0), vec![]);
}

#[test]
fn matrix_is_refused_when_coordinates_do_not_fit() {
    let algorithm = DebounceAlgorithm::Fast { samples: 1 };
    assert!(CentralMatrix::new(Geometry::new(4, 4, 253, 0, Wiring::Col2Row), algorithm, false).is_none());
    assert!(CentralMatrix::new(Geometry::new(4, 4, 0, 253, Wiring::Row2Col), algorithm, false).is_none());
    assert!(CentralMatrix::new(Geometry::new(4, 4, 252, 252, Wiring::Col2Row), algorithm, false).is_some());
}

#[test]
fn every_key_starts_released() {
    let m = matrix(3, 5, Wiring::Col2Row, DebounceAlgorithm::Default { window_ms: 5 }, true);
    for d in 0..5 {
        for s in 0..3 {
            assert!(!m.get_key_state(d, s).pressed);
        }
    }
}

#[test]
fn single_cell_scan_reports_global_coordinates() {
    let geometry = Geometry::new(3, 4, 2, 7, Wiring::Col2Row);
    let mut m = CentralMatrix::new(geometry, DebounceAlgorithm::Fast { samples: 2 }, false).unwrap();
    assert_eq!(m.scan_cell_at(3, 1, Some(true), 0), None);
    assert_eq!(m.scan_cell_at(3, 2, Some(true), 0), None);
    assert_eq!(m.scan_cell_at(3, 1, Some(true), 0), Some(press(3, 10)));
    assert_eq!(m.scan_cell_at(3, 1, Some(true), 0), None);
    assert!(m.get_key_state(3, 1).pressed);
    assert!(!m.get_key_state(3, 2).pressed);
    assert!(!m.get_key_state(1, 3 - 1).pressed);
}

#[test]
fn matrix_remembers_how_it_was_built() {
    let geometry = Geometry::new(3, 4, 2, 7, Wiring::Row2Col);
    let algorithm = DebounceAlgorithm::Default { window_ms: 9 };
    let mut m = CentralMatrix::new(geometry, algorithm, true).unwrap();
    assert_eq!(m.geometry(), geometry);
    assert_eq!(m.algorithm(), algorithm);
    assert_eq!(m.idle(), IdleWait { enabled: true, scan_start: None });
    m.resume_at(77);
    assert_eq!(m.idle(), IdleWait { enabled: true, scan_start: Some(77) });
}

#[test]
fn pressed_key_refreshes_the_activity_record() {
    let mut m = matrix(1, 2, Wiring::Row2Col, DebounceAlgorithm::Fast { samples: 1 }, true);
    assert_eq!(m.scan_at(&vec![vec![Some(false), Some(false)]], 10), vec![]);
    assert_eq!(m.idle().scan_start, None);
    assert_eq!(m.scan_at(&vec![vec![Some(false), Some(true)]], 20), vec![press(0, 1)]);
    assert_eq!(m.idle().scan_start, Some(20));
    assert_eq!(m.scan_at(&vec![vec![Some(false), Some(true)]], 30), vec![]);
    assert_eq!(m.idle().scan_start, Some(30));
    assert_eq!(m.scan_at(&vec![vec![Some(false), Some(false)]], 40), vec![release(0, 1)]);
    assert_eq!(m.idle().scan_start, Some(30));
}

#[test]
fn fresh_matrix_waits_for_a_key() {
    let mut m = matrix(2, 2, Wiring::Col2Row, DebounceAlgorithm::Fast { samples: 1 }, true);
    assert_eq!(m.wait_for_key_at(0), ScanMode::Waiting);
}

#[test]
fn matrix_without_idle_wait_always_polls() {
    let mut m = matrix(2, 2, Wiring::Col2Row, DebounceAlgorithm::Fast { samples: 1 }, false);
    assert_eq!(m.wait_for_key_at(0), ScanMode::Polling);
    assert_eq!(m.scan_at(&vec![vec![Some(false); 2]; 2], 10), vec![]);
    assert_eq!(m.wait_for_key_at(1_000_000), ScanMode::Polling);
}

#[test]
fn idle_wait_is_entered_only_after_a_quiet_second() {
    let mut m = matrix(1, 2, Wiring::Row2Col, DebounceAlgorithm::Fast { samples: 1 }, true);
    assert_eq!(m.wait_for_key_at(0), ScanMode::Waiting);
    m.resume_at(50);
    assert_eq!(m.wait_for_key_at(50), ScanMode::Polling);
    assert_eq!(m.scan_at(&vec![vec![Some(false), Some(true)]], 51), vec![press(0, 1)]);
    let mut now = 52;
    while now < 4000 {
        assert_eq!(m.wait_for_key_at(now), ScanMode::Polling);
        assert_eq!(m.scan_at(&vec![vec![Some(false), Some(true)]], now), vec![]);
        now += 7;
    }
    let released_at = now;
    assert_eq!(m.wait_for_key_at(released_at), ScanMode::Polling);
    assert_eq!(m.scan_at(&vec![vec![Some(false), Some(false)]], released_at), vec![release(0, 1)]);
    let held_until = released_at - 7;
    now = released_at + 1;
    while now < held_until + 1000 {
        assert_eq!(m.wait_for_key_at(now), ScanMode::Polling);
        assert_eq!(m.scan_at(&vec![vec![Some(false), Some(false)]], now), vec![]);
        now += 1;
    }
    assert_eq!(m.wait_for_key_at(held_until + 1000), ScanMode::Waiting);
}

#[test]
fn wake_is_followed_by_a_polling_pass_that_sees_the_key() {
    let mut m = matrix(1, 1, Wiring::Col2Row, DebounceAlgorithm::Fast { samples: 3 }, true);
    assert_eq!(m.wait_for_key_at(10_000), ScanMode::Waiting);
    m.resume_at(20_000);
    let mut emitted: Vec<(u64, KeyEvent)> = Vec::new();
    let mut at = 20_000;
    while at < 20_010 {
        assert_eq!(m.wait_for_key_at(at), ScanMode::Polling);
        for event in m.scan_at(&level(true), at) {
            emitted.push((at, event));
        }
        at += 1;
    }
    assert_eq!(emitted, vec![(20_002, press(0, 0))]);
}

#[test]
fn clocked_pass_debounces_by_count() {
    let mut m = matrix(1, 2, Wiring::Row2Col, DebounceAlgorithm::Fast { samples: 2 }, true);
    let samples = vec![vec![Some(true), Some(false)]];
    assert_eq!(m.scan(&samples), vec![]);
    assert_eq!(m.scan(&samples), vec![press(0, 0)]);
    assert_eq!(m.scan(&samples), vec![]);
    assert_eq!(m.wait_for_key(), ScanMode::Polling);
}

#[test]
fn clocked_pass_honours_the_window() {
    let mut m = one_key(DebounceAlgorithm::Default { window_ms: 3_600_000 });
    assert_eq!(m.scan(&level(true)), vec![]);
    assert_eq!(m.scan(&level(true)), vec![]);
    assert!(!m.get_key_state(0, 0).pressed);
    let mut quick = one_key(DebounceAlgorithm::Default { window_ms: 0 });
    assert_eq!(quick.scan(&level(true)), vec![press(0, 0)]);
}

#[test]
fn clocked_wake_is_followed_by_polling() {
    let mut m = matrix(1, 1, Wiring::Col2Row, DebounceAlgorithm::Fast { samples: 1 }, true);
    assert_eq!(m.wait_for_key(), ScanMode::Waiting);
    m.resume();
    assert_eq!(m.wait_for_key(), ScanMode::Polling);
}
