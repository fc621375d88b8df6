use breezy_timer::{ProcessSample, TimerState};

#[test]
fn new_state_has_zero_total() {
    let state = TimerState::new();
    assert_eq!(state.get_total_elapsed(), 0);
}

#[test]
fn add_time_accumulates_exact_intervals() {
    let mut state = TimerState::new();
    state.reset_time(ProcessSample { nanos: 100 });
    state.add_time(ProcessSample { nanos: 250 });
    assert_eq!(state.get_total_elapsed(), 150);
    state.reset_time(ProcessSample { nanos: 400 });
    state.add_time(ProcessSample { nanos: 650 });
    assert_eq!(state.get_total_elapsed(), 400);
}

#[test]
fn add_time_clamps_non_monotonic_sample() {
    let mut state = TimerState::new();
    state.reset_time(ProcessSample { nanos: 500 });
    state.add_time(ProcessSample { nanos: 200 });
    assert_eq!(state.get_total_elapsed(), 0);
    state.add_time(ProcessSample { nanos: 500 });
    assert_eq!(state.get_total_elapsed(), 0);
}

#[test]
fn add_time_saturates_at_max() {
    let mut state = TimerState::new();
    state.reset_time(ProcessSample { nanos: 0 });
    state.add_time(ProcessSample { nanos: u64::MAX });
    assert_eq!(state.get_total_elapsed(), u64::MAX);
    state.reset_time(ProcessSample { nanos: 10 });
    state.add_time(ProcessSample { nanos: 50 });
    assert_eq!(state.get_total_elapsed(), u64::MAX);
}

#[test]
fn reset_time_keeps_total() {
    let mut state = TimerState::new();
    state.reset_time(ProcessSample { nanos: 0 });
    state.add_time(ProcessSample { nanos: 75 });
    state.reset_time(ProcessSample { nanos: 1000 });
    assert_eq!(state.get_total_elapsed(), 75);
}
