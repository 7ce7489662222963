//! The synchronization engine: a pure per-tick state machine. The caller
//! owns the real-time loop (clock reads, sleeping, transmission); each tick
//! it hands in the wall clock in microseconds and a snapshot of the shared
//! control state, and receives back the action to perform. All decisions —
//! seek handling, pause edges, pacing arithmetic, end-of-stream and stop —
//! are made here and never block on anything.

use vstd::prelude::*;

verus! {

/// Fixed playback configuration derived at startup.
#[derive(Clone, Copy, Debug, PartialEq, Eq, Structural)]
pub struct EngineConfig {
    /// Number of zones on the physical target strip.
    pub total_tgt: usize,
    /// Bytes per zone (3 for RGB, 4 for RGBW).
    pub bytes_per_zone: usize,
    /// Sync lead added to every seek target, in microseconds.
    pub lead_us: i64,
    /// Nominal frame period, used only when timestamps are unusable.
    pub period_us: u64,
}

/// The engine's mutable playback state.
#[derive(Clone, Copy, Debug, PartialEq, Eq, Structural)]
pub struct PlaybackState {
    /// Next frame to transmit.
    pub frame_index: usize,
    /// Frame whose timestamp anchors relative time.
    pub start_frame: usize,
    /// Playback time accumulated before the current wall-clock anchor.
    pub elapsed_base_us: u64,
    /// Wall-clock instant (in the caller's microsecond clock) from which
    /// elapsed time is measured.
    pub anchor_us: u64,
    /// Pause flag as of the previous tick, for edge detection.
    pub paused: bool,
    /// Whether the single blank frame of the current pause was already sent.
    pub blank_sent: bool,
}

impl PlaybackState {
    /// The anchor frame never lies beyond the current frame.
    pub open spec fn wf(self) -> bool {
        self.start_frame <= self.frame_index
    }
}

/// What the control channel asked for, copied out of the shared state once
/// per tick. A stored heartbeat is consumed and discarded by the caller in
/// the same tick; it never reaches the engine.
#[derive(Clone, Copy, Debug, PartialEq, Eq)]
pub struct ControlSnapshot {
    /// Shutdown requested.
    pub stop: bool,
    /// Pause flag as the controller last set it.
    pub paused: bool,
    /// Pending seek target in microseconds (sync lead not yet added).
    pub seek_us: Option<i64>,
}

/// What the caller must do this tick.
#[derive(Debug, PartialEq, Eq)]
pub enum TickAction {
    /// Transmit the all-zero frame a few times, then terminate.
    Stop { blank: Vec<u8> },
    /// No frames remain; terminate without blanking.
    EndOfStream,
    /// Entering or continuing a pause whose blank frame is still owed:
    /// transmit it once, then idle briefly.
    PauseBlank { blank: Vec<u8> },
    /// Paused with the blank already sent: idle briefly.
    PauseIdle,
    /// Sleep `sleep_us`, then resample, process and transmit frame
    /// `frame_index`.
    Emit { frame_index: usize, sleep_us: u64 },
}

/// One tick's outcome: the action, and whether the caller must reset its
/// temporal-smoothing state (after a seek).
#[derive(Debug, PartialEq, Eq)]
pub struct TickPlan {
    pub reset_smoothing: bool,
    pub action: TickAction,
}

/// Every byte zero.
pub open spec fn all_zero(s: Seq<u8>) -> bool {
    forall|i: int| 0 <= i < s.len() ==> s[i] == 0u8
}

/// `v` capped at `u64::MAX`.
pub open spec fn cap_u64(v: int) -> int {
    if v > u64::MAX {
        u64::MAX as int
    } else {
        v
    }
}

/// The first index whose timestamp is at or after `target`, or the length
/// when every timestamp is earlier.
pub open spec fn first_at_or_after(ts: Seq<u64>, target: u64) -> int
    decreases ts.len(),
{
    if ts.len() == 0 {
        0
    } else if ts[0] >= target {
        0
    } else {
        1 + first_at_or_after(ts.skip(1), target)
    }
}

/// A seek target in microseconds: the requested position plus the sync
/// lead, floored at zero.
pub open spec fn seek_target_spec(seconds_us: i64, lead_us: i64) -> int {
    if seconds_us + lead_us < 0 {
        0
    } else {
        seconds_us + lead_us
    }
}

/// The state after a seek: playback restarts at the first frame at or after
/// the target, relative time is re-anchored at `now`, and the elapsed base
/// is cleared. The pause flags are untouched.
pub open spec fn seek_state_spec(
    s: PlaybackState,
    ts: Seq<u64>,
    n_frames: int,
    target_us: u64,
    now: u64,
) -> PlaybackState {
    let idx = first_at_or_after(ts, target_us);
    let fi = if idx < n_frames {
        idx
    } else {
        n_frames
    };
    PlaybackState {
        frame_index: fi as usize,
        start_frame: fi as usize,
        elapsed_base_us: 0,
        anchor_us: now,
        paused: s.paused,
        blank_sent: s.blank_sent,
    }
}

/// Saturating addition on the unsigned microsecond range.
pub open spec fn spec_sat_add_u64(a: int, b: int) -> int {
    if a + b <= u64::MAX {
        a + b
    } else {
        u64::MAX as int
    }
}

/// The state after applying pause edges against the controller's current
/// flag: entering a pause freezes elapsed time into the base; leaving one
/// re-anchors the wall clock and re-arms the single pause blank.
pub open spec fn pause_edge_spec(s: PlaybackState, paused_now: bool, now: u64) -> PlaybackState {
    PlaybackState {
        frame_index: s.frame_index,
        start_frame: s.start_frame,
        elapsed_base_us: if paused_now && !s.paused {
            spec_sat_add_u64(s.elapsed_base_us as int, now - s.anchor_us) as u64
        } else {
            s.elapsed_base_us
        },
        anchor_us: if !paused_now && s.paused {
            now
        } else {
            s.anchor_us
        },
        paused: paused_now,
        blank_sent: if !paused_now && s.paused {
            false
        } else {
            s.blank_sent
        },
    }
}

/// Elapsed playback time at instant `now`: the frozen base plus the time
/// since the anchor.
pub open spec fn elapsed_spec(s: PlaybackState, now: u64) -> int {
    spec_sat_add_u64(s.elapsed_base_us as int, now - s.anchor_us)
}

/// When frame `fi` is due, relative to the start frame: the timestamp
/// difference when timestamps cover both, otherwise the nominal period
/// times the frame distance. Negative differences clamp to zero.
pub open spec fn frame_target_rel_spec(ts: Seq<u64>, fi: int, sf: int, period: u64) -> int {
    let ft = if fi < ts.len() {
        ts[fi] as int
    } else {
        cap_u64(fi * period)
    };
    if sf < ts.len() {
        if ft >= ts[sf] {
            ft - ts[sf]
        } else {
            0
        }
    } else {
        cap_u64((fi - sf) * period)
    }
}

/// How long to sleep before emitting: the time still missing until the
/// frame is due, less the measured processing-latency compensation, never
/// negative.
pub open spec fn sleep_spec(rel: int, elapsed: int, comp: int) -> int {
    if elapsed < rel {
        if rel - elapsed > comp {
            rel - elapsed - comp
        } else {
            0
        }
    } else {
        0
    }
}

/// An index `r` that is below every at-or-after timestamp and at or after
/// every earlier one is exactly `first_at_or_after`.
proof fn lemma_first_at_or_after_characterize(ts: Seq<u64>, target: u64, r: int)
    requires
        0 <= r <= ts.len(),
        forall|j: int| 0 <= j < r ==> ts[j] < target,
        r < ts.len() ==> ts[r] >= target,
    ensures
        first_at_or_after(ts, target) == r,
    decreases ts.len(),
{
    if ts.len() == 0 {
    } else if ts[0] >= target {
        assert(r == 0);
    } else {
        assert(r >= 1);
        lemma_first_at_or_after_characterize(ts.skip(1), target, r - 1);
    }
}

/// Scan for the first frame whose timestamp is at or after `target_us`.
#[verifier::loop_isolation(false)]
pub fn find_start_frame(timestamps: &Vec<u64>, target_us: u64) -> (r: usize)
    ensures
        r == first_at_or_after(timestamps@, target_us),
        r <= timestamps@.len(),
        forall|j: int| 0 <= j < r ==> timestamps@[j] < target_us,
        r < timestamps@.len() ==> timestamps@[r as int] >= target_us,
{
    let mut i: usize = 0;
    while i < timestamps.len() && timestamps[i] < target_us
        invariant
            0 <= i <= timestamps@.len(),
            forall|j: int| 0 <= j < i ==> timestamps@[j] < target_us,
        decreases timestamps@.len() - i,
    {
        i = i + 1;
    }
    proof {
        lemma_first_at_or_after_characterize(timestamps@, target_us, i as int);
    }
    i
}

/// An all-zero frame of `len` bytes.
#[verifier::loop_isolation(false)]
pub fn blank_frame(len: usize) -> (r: Vec<u8>)
    ensures
        r@.len() == len,
        all_zero(r@),
{
    let mut out: Vec<u8> = Vec::new();
    let mut i: usize = 0;
    while i < len
        invariant
            0 <= i <= len,
            out@.len() == i,
            forall|j: int| 0 <= j < i ==> out@[j] == 0u8,
        decreases len - i,
    {
        out.push(0u8);
        i = i + 1;
    }
    out
}

/// The effective start position in microseconds: configured start offset
/// plus launch delay plus sync lead, floored at zero and capped at the
/// microsecond range.
pub fn effective_start_us(start_us: i64, launch_delta_us: u64, lead_us: i64) -> (r: u64)
    ensures
        r == ({
            let sum = start_us + launch_delta_us + lead_us;
            if sum <= 0 {
                0
            } else if sum >= u64::MAX {
                u64::MAX as int
            } else {
                sum
            }
        }),
{
    let sum: i128 = start_us as i128 + launch_delta_us as i128 + lead_us as i128;
    if sum <= 0 {
        0
    } else if sum >= u64::MAX as i128 {
        u64::MAX
    } else {
        sum as u64
    }
}

/// The playback state at startup: positioned at the first frame due at or
/// after `start_ts_us`, anchored at `now_us`, not paused.
pub fn initial_state(timestamps: &Vec<u64>, n_frames: usize, start_ts_us: u64, now_us: u64) -> (s:
    PlaybackState)
    requires
        timestamps@.len() == n_frames,
    ensures
        s == seek_state_spec(
            PlaybackState {
                frame_index: 0,
                start_frame: 0,
                elapsed_base_us: 0,
                anchor_us: now_us,
                paused: false,
                blank_sent: false,
            },
            timestamps@,
            n_frames as int,
            start_ts_us,
            now_us,
        ),
        s.wf(),
{
    let idx = find_start_frame(timestamps, start_ts_us);
    PlaybackState {
        frame_index: idx,
        start_frame: idx,
        elapsed_base_us: 0,
        anchor_us: now_us,
        paused: false,
        blank_sent: false,
    }
}

/// Apply a pending seek: recompute the frame position from the target
/// timestamp, clear the elapsed base and re-anchor the clock. A target past
/// the last recorded timestamp clamps to end-of-stream.
pub fn apply_seek(
    state: &mut PlaybackState,
    timestamps: &Vec<u64>,
    n_frames: usize,
    target_us: u64,
    now_us: u64,
)
    requires
        timestamps@.len() == n_frames,
    ensures
        *final(state) == seek_state_spec(
            *old(state),
            timestamps@,
            n_frames as int,
            target_us,
            now_us,
        ),
        final(state).wf(),
        final(state).frame_index <= n_frames,
{
    let idx = find_start_frame(timestamps, target_us);
    let fi = if idx < n_frames {
        idx
    } else {
        n_frames
    };
    state.frame_index = fi;
    state.start_frame = fi;
    state.elapsed_base_us = 0;
    state.anchor_us = now_us;
}

fn cap_mul_u64(a: u64, b: u64) -> (r: u64)
    ensures
        r == cap_u64(a * b),
{
    proof {
        vstd::arithmetic::mul::lemma_mul_upper_bound(
            a as int,
            0xffff_ffff_ffff_ffff,
            b as int,
            0xffff_ffff_ffff_ffff,
        );
    }
    let p: u128 = a as u128 * b as u128;
    if p >= u64::MAX as u128 {
        u64::MAX
    } else {
        p as u64
    }
}

/// Decide one tick. Order of precedence: a stop request; end of stream; a
/// pending seek (which may itself reach end of stream); pause handling;
/// otherwise emit the current frame after the pacing sleep.
pub fn plan_tick(
    state: &mut PlaybackState,
    ctrl: &ControlSnapshot,
    now_us: u64,
    timestamps: &Vec<u64>,
    n_frames: usize,
    cfg: &EngineConfig,
    latency_comp_us: u64,
) -> (plan: TickPlan)
    requires
        timestamps@.len() == n_frames,
        old(state).anchor_us <= now_us,
        old(state).wf(),
        cfg.total_tgt * cfg.bytes_per_zone <= usize::MAX,
    ensures
        final(state).wf(),
        final(state).anchor_us <= now_us,
        ({
            let s0 = *old(state);
            let sn = *final(state);
            let blank_len = cfg.total_tgt * cfg.bytes_per_zone;
            &&& plan.reset_smoothing == (!ctrl.stop && s0.frame_index < n_frames
                && ctrl.seek_us is Some)
            &&& if ctrl.stop {
                &&& plan.action matches TickAction::Stop { blank } && blank@.len() == blank_len
                    && all_zero(blank@)
                &&& sn == s0
            } else if s0.frame_index >= n_frames {
                &&& plan.action is EndOfStream
                &&& sn == s0
            } else {
                let s1 = if ctrl.seek_us is Some {
                    seek_state_spec(
                        s0,
                        timestamps@,
                        n_frames as int,
                        seek_target_spec(ctrl.seek_us->0, cfg.lead_us) as u64,
                        now_us,
                    )
                } else {
                    s0
                };
                if s1.frame_index >= n_frames {
                    &&& plan.action is EndOfStream
                    &&& sn == s1
                } else {
                    let s2 = pause_edge_spec(s1, ctrl.paused, now_us);
                    if ctrl.paused {
                        if !s2.blank_sent {
                            &&& plan.action matches TickAction::PauseBlank { blank }
                                && blank@.len() == blank_len && all_zero(blank@)
                            &&& sn == PlaybackState { blank_sent: true, ..s2 }
                        } else {
                            &&& plan.action is PauseIdle
                            &&& sn == s2
                        }
                    } else {
                        &&& plan.action matches TickAction::Emit { frame_index, sleep_us }
                            && frame_index == s2.frame_index && sleep_us == sleep_spec(
                            frame_target_rel_spec(
                                timestamps@,
                                s2.frame_index as int,
                                s2.start_frame as int,
                                cfg.period_us,
                            ),
                            elapsed_spec(s2, now_us),
                            latency_comp_us as int,
                        )
                        &&& sn == PlaybackState { frame_index: (s2.frame_index + 1) as usize, ..s2 }
                    }
                }
            }
        }),
{
    if ctrl.stop {
        let blank = blank_frame(cfg.total_tgt * cfg.bytes_per_zone);
        return TickPlan { reset_smoothing: false, action: TickAction::Stop { blank } };
    }
    if state.frame_index >= n_frames {
        return TickPlan { reset_smoothing: false, action: TickAction::EndOfStream };
    }

    // A pending seek rebuilds the position and timing base from scratch.
    let mut did_seek = false;
    match ctrl.seek_us {
        Some(t) => {
            let sum: i128 = t as i128 + cfg.lead_us as i128;
            let target_us: u64 = if sum < 0 {
                0
            } else {
                sum as u64
            };
            apply_seek(state, timestamps, n_frames, target_us, now_us);
            did_seek = true;
        },
        None => {},
    }
    if state.frame_index >= n_frames {
        return TickPlan { reset_smoothing: did_seek, action: TickAction::EndOfStream };
    }

    // Pause/resume edges.
    if ctrl.paused && !state.paused {
        // Entering pause: freeze elapsed time.
        let since = now_us - state.anchor_us;
        state.elapsed_base_us = crate::util::sat_add_u64(state.elapsed_base_us, since);
    }
    if !ctrl.paused && state.paused {
        // Resuming: restart the wall clock and re-arm the pause blank.
        state.anchor_us = now_us;
        state.blank_sent = false;
    }
    state.paused = ctrl.paused;

    if ctrl.paused {
        if !state.blank_sent {
            state.blank_sent = true;
            let blank = blank_frame(cfg.total_tgt * cfg.bytes_per_zone);
            return TickPlan { reset_smoothing: did_seek, action: TickAction::PauseBlank { blank } };
        }
        return TickPlan { reset_smoothing: did_seek, action: TickAction::PauseIdle };
    }

    // Pacing: when is the current frame due, and how much of that is left?
    let fi = state.frame_index;
    let sf = state.start_frame;
    let ft: u64 = if fi < timestamps.len() {
        timestamps[fi]
    } else {
        cap_mul_u64(fi as u64, cfg.period_us)
    };
    let rel: u64 = if sf < timestamps.len() {
        crate::util::sat_sub_u64(ft, timestamps[sf])
    } else {
        cap_mul_u64((fi - sf) as u64, cfg.period_us)
    };
    let since = now_us - state.anchor_us;
    let elapsed = crate::util::sat_add_u64(state.elapsed_base_us, since);
    let sleep_us: u64 = if elapsed < rel {
        let d = rel - elapsed;
        if d > latency_comp_us {
            d - latency_comp_us
        } else {
            0
        }
    } else {
        0
    };
    state.frame_index = fi + 1;
    TickPlan { reset_smoothing: did_seek, action: TickAction::Emit { frame_index: fi, sleep_us } }
}

/// Nominal frame period when the header's rate is unusable: the spacing of
/// the first two timestamps if they differ, else the 24 fps default period.
pub fn fallback_period_us(timestamps: &Vec<u64>) -> (r: u64)
    ensures
        r == ({
            if timestamps@.len() >= 2 && timestamps@[1] != timestamps@[0] {
                if timestamps@[1] >= timestamps@[0] {
                    timestamps@[1] - timestamps@[0]
                } else {
                    timestamps@[0] - timestamps@[1]
                }
            } else {
                41666int
            }
        }),
{
    if timestamps.len() >= 2 {
        let t0 = timestamps[0];
        let t1 = timestamps[1];
        if t1 > t0 {
            t1 - t0
        } else if t0 > t1 {
            t0 - t1
        } else {
            41666
        }
    } else {
        41666
    }
}

/// Inter-frame time for the temporal smoothing weight: the distance to the
/// previous timestamp, or the nominal period for the first frame or a
/// non-increasing timestamp pair.
pub fn frame_dt_us(timestamps: &Vec<u64>, frame_index: usize, period_us: u64) -> (r: u64)
    ensures
        r == ({
            if 0 < frame_index < timestamps@.len() && timestamps@[frame_index as int]
                > timestamps@[frame_index - 1] {
                timestamps@[frame_index as int] - timestamps@[frame_index - 1]
            } else {
                period_us as int
            }
        }),
{
    if frame_index > 0 && frame_index < timestamps.len() {
        let prev = timestamps[frame_index - 1];
        let cur = timestamps[frame_index];
        if cur > prev {
            cur - prev
        } else {
            period_us
        }
    } else {
        period_us
    }
}

} // verus!

