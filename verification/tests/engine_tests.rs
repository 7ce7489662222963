use ambilight_player::engine::{
    apply_seek, blank_frame, effective_start_us, fallback_period_us, find_start_frame,
    frame_dt_us, initial_state, plan_tick, ControlSnapshot, EngineConfig, PlaybackState,
    TickAction,
};

fn cfg() -> EngineConfig {
    EngineConfig { total_tgt: 2, bytes_per_zone: 3, lead_us: 0, period_us: 41666 }
}

fn quiet() -> ControlSnapshot {
    ControlSnapshot { stop: false, paused: false, seek_us: None }
}

#[test]
fn start_frame_is_first_at_or_after_target() {
    let ts = vec![0u64, 41666, 83333, 125000];
    assert_eq!(find_start_frame(&ts, 0), 0);
    assert_eq!(find_start_frame(&ts, 1), 1);
    assert_eq!(find_start_frame(&ts, 41666), 1);
    assert_eq!(find_start_frame(&ts, 90000), 3);
    assert_eq!(find_start_frame(&ts, 10_000_000), 4);
}

#[test]
fn seek_past_end_clamps_to_end_of_stream() {
    let ts = vec![0u64, 41666];
    let mut state = initial_state(&ts, 2, 0, 1000);
    apply_seek(&mut state, &ts, 2, 10_000_000_000, 2000);
    assert_eq!(state.frame_index, 2);
    assert_eq!(state.start_frame, 2);
    // The next tick ends playback without error.
    let plan = plan_tick(&mut state, &quiet(), 3000, &ts, 2, &cfg(), 0);
    assert_eq!(plan.action, TickAction::EndOfStream);
}

#[test]
fn seek_command_resets_position_and_smoothing() {
    let ts = vec![0u64, 41666, 83333];
    let mut state = initial_state(&ts, 3, 0, 1000);
    state.frame_index = 2;
    let ctrl = ControlSnapshot { stop: false, paused: false, seek_us: Some(0) };
    let plan = plan_tick(&mut state, &ctrl, 5000, &ts, 3, &cfg(), 0);
    assert!(plan.reset_smoothing);
    match plan.action {
        TickAction::Emit { frame_index, .. } => assert_eq!(frame_index, 0),
        other => panic!("expected Emit, got {:?}", other),
    }
    assert_eq!(state.start_frame, 0);
    assert_eq!(state.frame_index, 1);
    assert_eq!(state.elapsed_base_us, 0);
    assert_eq!(state.anchor_us, 5000);
}

#[test]
fn stop_blanks_and_preserves_state() {
    let ts = vec![0u64, 41666];
    let mut state = initial_state(&ts, 2, 0, 1000);
    let before = state;
    let ctrl = ControlSnapshot { stop: true, paused: false, seek_us: None };
    let plan = plan_tick(&mut state, &ctrl, 2000, &ts, 2, &cfg(), 0);
    match plan.action {
        TickAction::Stop { blank } => {
            assert_eq!(blank.len(), 6);
            assert!(blank.iter().all(|&b| b == 0));
        },
        other => panic!("expected Stop, got {:?}", other),
    }
    assert_eq!(state, before);
}

#[test]
fn pause_sends_exactly_one_blank_per_entry() {
    let ts = vec![0u64, 41666];
    let mut state = initial_state(&ts, 2, 0, 0);
    let paused = ControlSnapshot { stop: false, paused: true, seek_us: None };

    let plan = plan_tick(&mut state, &paused, 100, &ts, 2, &cfg(), 0);
    match plan.action {
        TickAction::PauseBlank { blank } => {
            assert_eq!(blank.len(), 6);
            assert!(blank.iter().all(|&b| b == 0));
        },
        other => panic!("expected PauseBlank, got {:?}", other),
    }
    let plan = plan_tick(&mut state, &paused, 200, &ts, 2, &cfg(), 0);
    assert_eq!(plan.action, TickAction::PauseIdle);

    // Resume, then pause again: the blank is owed once more.
    let plan = plan_tick(&mut state, &quiet(), 300, &ts, 2, &cfg(), 0);
    assert!(matches!(plan.action, TickAction::Emit { .. }));
    let plan = plan_tick(&mut state, &paused, 400, &ts, 2, &cfg(), 0);
    assert!(matches!(plan.action, TickAction::PauseBlank { .. }));
}

#[test]
fn pause_freezes_elapsed_time() {
    let ts = vec![0u64, 1_000_000];
    let mut state = initial_state(&ts, 2, 0, 0);
    let paused = ControlSnapshot { stop: false, paused: true, seek_us: None };

    // First frame goes out immediately.
    let plan = plan_tick(&mut state, &quiet(), 0, &ts, 2, &cfg(), 0);
    assert!(matches!(plan.action, TickAction::Emit { frame_index: 0, sleep_us: 0 }));

    // Pause at t=200ms: 200ms of playback are banked.
    plan_tick(&mut state, &paused, 200_000, &ts, 2, &cfg(), 0);
    assert_eq!(state.elapsed_base_us, 200_000);

    // Resume at t=700ms: the anchor restarts, the pause gap is not counted.
    plan_tick(&mut state, &quiet(), 700_000, &ts, 2, &cfg(), 0);
    assert_eq!(state.anchor_us, 700_000);

    // At t=800ms elapsed playback is 300ms, so frame 1 (due at 1s) waits
    // 700ms more.
    state.frame_index = 1;
    let plan = plan_tick(&mut state, &quiet(), 800_000, &ts, 2, &cfg(), 0);
    assert!(matches!(plan.action, TickAction::Emit { frame_index: 1, sleep_us: 700_000 }));
}

#[test]
fn pacing_sleeps_the_remainder_less_compensation() {
    let ts = vec![0u64, 41666];
    let mut state = initial_state(&ts, 2, 0, 1000);
    state.frame_index = 1;

    // No compensation: sleep the full remainder.
    let mut s = state;
    let plan = plan_tick(&mut s, &quiet(), 1000, &ts, 2, &cfg(), 0);
    assert!(matches!(plan.action, TickAction::Emit { frame_index: 1, sleep_us: 41666 }));

    // Compensation shortens the sleep.
    let mut s = state;
    let plan = plan_tick(&mut s, &quiet(), 1000, &ts, 2, &cfg(), 5000);
    assert!(matches!(plan.action, TickAction::Emit { sleep_us: 36666, .. }));

    // Compensation larger than the remainder clamps to zero.
    let mut s = state;
    let plan = plan_tick(&mut s, &quiet(), 1000, &ts, 2, &cfg(), 60000);
    assert!(matches!(plan.action, TickAction::Emit { sleep_us: 0, .. }));

    // Already late: no sleep at all.
    let mut s = state;
    let plan = plan_tick(&mut s, &quiet(), 60000 + 1000, &ts, 2, &cfg(), 0);
    assert!(matches!(plan.action, TickAction::Emit { sleep_us: 0, .. }));
}

#[test]
fn emit_advances_the_frame_index() {
    let ts = vec![0u64, 41666];
    let mut state = initial_state(&ts, 2, 0, 0);
    plan_tick(&mut state, &quiet(), 0, &ts, 2, &cfg(), 0);
    assert_eq!(state.frame_index, 1);
    plan_tick(&mut state, &quiet(), 50_000, &ts, 2, &cfg(), 0);
    assert_eq!(state.frame_index, 2);
    let plan = plan_tick(&mut state, &quiet(), 100_000, &ts, 2, &cfg(), 0);
    assert_eq!(plan.action, TickAction::EndOfStream);
}

#[test]
fn effective_start_combines_offset_delay_and_lead() {
    assert_eq!(effective_start_us(1_000_000, 2_000_000, 200_000), 3_200_000);
    assert_eq!(effective_start_us(-5_000_000, 2_000_000, 0), 0);
    assert_eq!(effective_start_us(0, 0, 0), 0);
    assert_eq!(effective_start_us(i64::MAX, u64::MAX, i64::MAX), u64::MAX);
}

#[test]
fn fallback_period_prefers_the_first_timestamp_gap() {
    assert_eq!(fallback_period_us(&vec![0, 40_000, 80_000]), 40_000);
    assert_eq!(fallback_period_us(&vec![40_000, 0]), 40_000);
    assert_eq!(fallback_period_us(&vec![7, 7]), 41666);
    assert_eq!(fallback_period_us(&vec![7]), 41666);
    assert_eq!(fallback_period_us(&vec![]), 41666);
}

#[test]
fn frame_dt_reads_timestamp_spacing() {
    let ts = vec![0u64, 41666, 41666, 90000];
    assert_eq!(frame_dt_us(&ts, 0, 41666), 41666);
    assert_eq!(frame_dt_us(&ts, 1, 40000), 41666);
    assert_eq!(frame_dt_us(&ts, 2, 40000), 40000); // non-increasing pair
    assert_eq!(frame_dt_us(&ts, 3, 40000), 48334);
    assert_eq!(frame_dt_us(&ts, 9, 40000), 40000); // out of range
}

#[test]
fn blank_frames_are_zero_filled() {
    let b = blank_frame(12);
    assert_eq!(b.len(), 12);
    assert!(b.iter().all(|&x| x == 0));
    assert!(blank_frame(0).is_empty());
}
