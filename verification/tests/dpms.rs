use std::collections::HashMap;

use cryolock::dpms::{power_targets, DpmsState};

const SECOND: u128 = 1_000_000_000;

fn one_output() -> HashMap<u32, ()> {
    let mut controls = HashMap::new();
    controls.insert(7, ());
    controls
}

#[test]
fn new_state_is_not_blanked() {
    let state = DpmsState::new(120);
    assert!(!state.is_blanked());
}

#[test]
fn disabled_when_zero_timeout() {
    let mut state = DpmsState::new(0);
    // tick with empty controls should never blank.
    let changed = state.tick(&HashMap::<u32, ()>::new());
    assert!(!changed);
    assert!(!state.is_blanked());
}

#[test]
fn zero_timeout_never_blanks() {
    let mut state = DpmsState::new(0);
    assert!(!state.tick_at(u128::MAX, &one_output()));
    assert!(!state.is_blanked());
}

#[test]
fn blanks_once_when_idle_long_enough() {
    let mut state = DpmsState::new(120);
    let controls = one_output();
    assert!(!state.tick_at(120 * SECOND - 1, &controls));
    assert!(!state.tick_at(120 * SECOND, &HashMap::<u32, ()>::new()));
    assert!(!state.is_blanked());
    assert!(state.tick_at(120 * SECOND, &controls));
    assert!(state.is_blanked());
    assert!(!state.tick_at(121 * SECOND, &controls));
    assert!(state.is_blanked());
}

#[test]
fn activity_restarts_the_timer() {
    let mut state = DpmsState::new(2);
    let controls = one_output();
    state.record_activity_at(10 * SECOND);
    assert!(!state.tick_at(12 * SECOND - 1, &controls));
    // A reading before the last activity counts as no time at all.
    assert!(!state.tick_at(SECOND, &controls));
    assert!(state.tick_at(12 * SECOND, &controls));
}

#[test]
fn waking_restarts_the_timer() {
    let mut state = DpmsState::new(2);
    let controls = one_output();
    assert!(!state.wake_at(SECOND));
    assert!(state.tick_at(2 * SECOND, &controls));
    assert!(state.wake_at(50 * SECOND));
    assert!(!state.is_blanked());
    assert!(!state.wake_at(50 * SECOND));
    assert!(!state.tick_at(51 * SECOND, &controls));
    assert!(state.tick_at(52 * SECOND, &controls));
}

#[test]
fn waking_undoes_blanking() {
    let mut state = DpmsState::new(2);
    let controls = one_output();
    assert!(state.tick_at(5 * SECOND, &controls));
    assert!(state.wake_at(6 * SECOND));
    assert!(!state.is_blanked());
    assert!(!state.wake_at(7 * SECOND));
    assert!(!state.tick_at(8 * SECOND - 1, &controls));
    assert!(state.tick_at(8 * SECOND, &controls));
}

#[test]
fn ticks_keep_the_last_input() {
    let mut state = DpmsState::new(3);
    let controls = one_output();
    state.record_activity_at(SECOND);
    for now in [SECOND, 2 * SECOND, 3 * SECOND, 4 * SECOND - 1] {
        assert!(!state.tick_at(now, &controls));
        assert!(!state.wake_at(now));
        assert!(!state.ensure_on());
    }
    assert!(state.tick_at(4 * SECOND, &controls));
}

#[test]
fn switching_on_reports_whether_needed() {
    let mut state = DpmsState::new(1);
    assert!(!state.ensure_on());
    assert!(state.tick_at(SECOND, &one_output()));
    assert!(state.ensure_on());
    assert!(!state.is_blanked());
    assert!(!state.ensure_on());
}

#[test]
fn clock_is_read_from_the_start() {
    let mut state = DpmsState::new(3600);
    let controls = one_output();
    // No hour has passed since the tracker was created.
    assert!(!state.tick(&controls));
    state.record_activity();
    assert!(!state.tick(&controls));
    assert!(!state.wake());
    // Two hours after the start, more than one has passed since that activity.
    assert!(state.tick_at(2 * 3600 * SECOND, &controls));
    assert!(state.wake());
    assert!(!state.is_blanked());
    assert!(!state.tick(&controls));
}

#[test]
fn all_outputs_are_switched() {
    let mut controls = HashMap::new();
    for id in [3u32, 9, 4] {
        controls.insert(id, id * 10);
    }
    let mut ids = power_targets(&controls);
    ids.sort();
    assert_eq!(ids, vec![3, 4, 9]);
    assert!(power_targets(&HashMap::<u32, u8>::new()).is_empty());
}
