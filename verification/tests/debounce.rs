use key_matrix::debounce::{
    DebounceAlgorithm, DebounceState, Debouncer, DEFAULT_WINDOW_MS, FAST_SAMPLES,
};
use key_matrix::key_state::KeyState;

fn released() -> KeyState {
    KeyState::new()
}

fn held() -> KeyState {
    let mut state = KeyState::new();
    state.toggle_pressed();
    state
}

#[test]
fn key_state_starts_released_and_toggles() {
    let mut state = KeyState::new();
    assert!(!state.pressed);
    assert!(state.is_releasing());
    assert!(!state.is_pressing());
    state.toggle_pressed();
    assert!(state.pressed);
    assert!(state.is_pressing());
    assert!(!state.is_releasing());
    state.toggle_pressed();
    assert_eq!(state, KeyState::default());
}

#[test]
fn usual_thresholds() {
    assert_eq!(DEFAULT_WINDOW_MS, 5);
    assert_eq!(FAST_SAMPLES, 3);
}

#[test]
fn fast_confirms_on_the_third_sample_in_a_row() {
    let mut engine = Debouncer::new(DebounceAlgorithm::Fast { samples: 3 }, 1, 1);
    assert_eq!(engine.detect_change_at(0, 0, true, &released(), 0), DebounceState::Ignored);
    assert_eq!(engine.detect_change_at(0, 0, true, &released(), 0), DebounceState::Ignored);
    assert_eq!(engine.detect_change_at(0, 0, true, &released(), 0), DebounceState::Debounced);
}

#[test]
fn fast_does_not_look_at_the_clock() {
    let mut engine = Debouncer::new(DebounceAlgorithm::Fast { samples: 2 }, 1, 1);
    assert_eq!(
        engine.detect_change_at(0, 0, true, &released(), 1_000_000),
        DebounceState::Ignored
    );
    assert_eq!(engine.detect_change_at(0, 0, true, &released(), 3), DebounceState::Debounced);
}

#[test]
fn fast_run_is_broken_by_a_sample_at_rest() {
    let mut engine = Debouncer::new(DebounceAlgorithm::Fast { samples: 3 }, 1, 1);
    assert_eq!(engine.detect_change_at(0, 0, true, &released(), 0), DebounceState::Ignored);
    assert_eq!(engine.detect_change_at(0, 0, true, &released(), 1), DebounceState::Ignored);
    assert_eq!(engine.detect_change_at(0, 0, false, &released(), 2), DebounceState::Unchanged);
    assert_eq!(engine.detect_change_at(0, 0, true, &released(), 3), DebounceState::Ignored);
    assert_eq!(engine.detect_change_at(0, 0, true, &released(), 4), DebounceState::Ignored);
    assert_eq!(engine.detect_change_at(0, 0, true, &released(), 5), DebounceState::Debounced);
}

#[test]
fn fast_with_one_sample_confirms_at_once() {
    let mut engine = Debouncer::new(DebounceAlgorithm::Fast { samples: 1 }, 1, 1);
    assert_eq!(engine.detect_change_at(0, 0, true, &released(), 0), DebounceState::Debounced);
    let mut none_needed = Debouncer::new(DebounceAlgorithm::Fast { samples: 0 }, 1, 1);
    assert_eq!(
        none_needed.detect_change_at(0, 0, true, &released(), 0),
        DebounceState::Debounced
    );
}

#[test]
fn default_confirms_when_the_window_has_passed() {
    let mut engine = Debouncer::new(DebounceAlgorithm::Default { window_ms: 5 }, 1, 1);
    assert_eq!(engine.detect_change_at(0, 0, true, &released(), 100), DebounceState::Ignored);
    assert_eq!(engine.detect_change_at(0, 0, true, &released(), 102), DebounceState::Ignored);
    assert_eq!(engine.detect_change_at(0, 0, true, &released(), 104), DebounceState::Ignored);
    assert_eq!(engine.detect_change_at(0, 0, true, &released(), 105), DebounceState::Debounced);
}

#[test]
fn default_counts_time_not_samples() {
    let mut engine = Debouncer::new(DebounceAlgorithm::Default { window_ms: 5 }, 1, 1);
    for _ in 0..50 {
        assert_eq!(engine.detect_change_at(0, 0, true, &released(), 7), DebounceState::Ignored);
    }
    assert_eq!(engine.detect_change_at(0, 0, true, &released(), 11), DebounceState::Ignored);
    assert_eq!(engine.detect_change_at(0, 0, true, &released(), 12), DebounceState::Debounced);
}

#[test]
fn default_window_restarts_after_a_sample_at_rest() {
    let mut engine = Debouncer::new(DebounceAlgorithm::Default { window_ms: 5 }, 1, 1);
    assert_eq!(engine.detect_change_at(0, 0, true, &released(), 0), DebounceState::Ignored);
    assert_eq!(engine.detect_change_at(0, 0, true, &released(), 4), DebounceState::Ignored);
    assert_eq!(engine.detect_change_at(0, 0, false, &released(), 5), DebounceState::Unchanged);
    assert_eq!(engine.detect_change_at(0, 0, true, &released(), 6), DebounceState::Ignored);
    assert_eq!(engine.detect_change_at(0, 0, true, &released(), 10), DebounceState::Ignored);
    assert_eq!(engine.detect_change_at(0, 0, true, &released(), 11), DebounceState::Debounced);
}

#[test]
fn default_with_no_window_confirms_at_once() {
    let mut engine = Debouncer::new(DebounceAlgorithm::Default { window_ms: 0 }, 1, 1);
    assert_eq!(engine.detect_change_at(0, 0, true, &released(), 9), DebounceState::Debounced);
}

#[test]
fn default_restarts_the_window_when_the_clock_runs_backwards() {
    let mut engine = Debouncer::new(DebounceAlgorithm::Default { window_ms: 5 }, 1, 1);
    assert_eq!(engine.detect_change_at(0, 0, true, &released(), 100), DebounceState::Ignored);
    assert_eq!(engine.detect_change_at(0, 0, true, &released(), 50), DebounceState::Ignored);
    assert_eq!(engine.detect_change_at(0, 0, true, &released(), 54), DebounceState::Ignored);
    assert_eq!(engine.detect_change_at(0, 0, true, &released(), 55), DebounceState::Debounced);
}

#[test]
fn a_level_that_agrees_with_the_key_is_unchanged() {
    let mut engine = Debouncer::new(DebounceAlgorithm::Fast { samples: 1 }, 1, 1);
    assert_eq!(engine.detect_change_at(0, 0, false, &released(), 0), DebounceState::Unchanged);
    assert_eq!(engine.detect_change_at(0, 0, true, &held(), 0), DebounceState::Unchanged);
}

#[test]
fn release_is_debounced_like_press() {
    let mut engine = Debouncer::new(DebounceAlgorithm::Fast { samples: 2 }, 1, 1);
    assert_eq!(engine.detect_change_at(0, 0, false, &held(), 0), DebounceState::Ignored);
    assert_eq!(engine.detect_change_at(0, 0, false, &held(), 0), DebounceState::Debounced);
}

#[test]
fn cells_are_debounced_apart() {
    let mut engine = Debouncer::new(DebounceAlgorithm::Fast { samples: 2 }, 2, 3);
    assert_eq!(engine.detect_change_at(2, 1, true, &released(), 0), DebounceState::Ignored);
    assert_eq!(engine.detect_change_at(1, 1, true, &released(), 0), DebounceState::Ignored);
    assert_eq!(engine.detect_change_at(2, 0, true, &released(), 0), DebounceState::Ignored);
    assert_eq!(engine.detect_change_at(2, 1, true, &released(), 0), DebounceState::Debounced);
    assert_eq!(engine.detect_change_at(1, 1, true, &released(), 0), DebounceState::Debounced);
    assert_eq!(engine.detect_change_at(0, 0, true, &released(), 0), DebounceState::Ignored);
}

#[test]
fn engine_remembers_its_algorithm() {
    let engine = Debouncer::new(DebounceAlgorithm::Default { window_ms: 8 }, 2, 2);
    assert_eq!(engine.algorithm(), DebounceAlgorithm::Default { window_ms: 8 });
}

#[test]
fn clocked_fast_engine_confirms_by_count() {
    let mut engine = Debouncer::new(DebounceAlgorithm::Fast { samples: 2 }, 1, 1);
    assert_eq!(
        engine.detect_change_with_debounce(0, 0, true, &released()),
        DebounceState::Ignored
    );
    assert_eq!(
        engine.detect_change_with_debounce(0, 0, true, &released()),
        DebounceState::Debounced
    );
}

#[test]
fn clocked_default_engine_waits_for_its_window() {
    let mut engine = Debouncer::new(DebounceAlgorithm::Default { window_ms: 3_600_000 }, 1, 1);
    assert_eq!(
        engine.detect_change_with_debounce(0, 0, true, &released()),
        DebounceState::Ignored
    );
    assert_eq!(
        engine.detect_change_with_debounce(0, 0, true, &released()),
        DebounceState::Ignored
    );
    assert_eq!(
        engine.detect_change_with_debounce(0, 0, false, &released()),
        DebounceState::Unchanged
    );
}
