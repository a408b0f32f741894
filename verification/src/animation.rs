//! Animation selection and frame advance.
//!
//! The animation kind is a pure function of the horizontal speed and the
//! current vitality: below 0.01 world units per second (10 milli-units) the
//! entity idles, below 2.1 (2100 milli-units) it walks, otherwise it runs —
//! and exhausted vitality selects the single-frame death range over
//! everything else, permanently. Frame advance runs on a separate
//! fixed-interval timer and wraps within the selected range; the death
//! range, being a single frame, freezes.

use vstd::prelude::*;

verus! {

/// Horizontal speed below which an entity idles, in milli-units per second.
pub const IDLE_MAX_MILLI: i64 = 10;

/// Horizontal speed below which an entity walks, in milli-units per second.
pub const WALK_MAX_MILLI: i64 = 2100;

/// The named animation ranges.
#[derive(Clone, Copy, PartialEq, Eq, Structural, Debug)]
pub enum AnimationKind {
    Idle,
    Walk,
    Run,
    Death,
}

/// First frame of the kind's range in the sprite sheet.
pub open spec fn spec_first_frame(kind: AnimationKind) -> u32 {
    match kind {
        AnimationKind::Idle => 0,
        AnimationKind::Walk => 4,
        AnimationKind::Run => 10,
        AnimationKind::Death => 16,
    }
}

/// Last frame of the kind's range, inclusive. The death range is a single
/// frame.
pub open spec fn spec_last_frame(kind: AnimationKind) -> u32 {
    match kind {
        AnimationKind::Idle => 3,
        AnimationKind::Walk => 9,
        AnimationKind::Run => 15,
        AnimationKind::Death => 16,
    }
}

/// The magnitude of a velocity component.
pub open spec fn spec_abs(v: int) -> int {
    if v >= 0 {
        v
    } else {
        -v
    }
}

/// The kind selected for a horizontal speed and vitality: death overrides
/// everything; otherwise the two speed thresholds decide.
pub open spec fn spec_select(vx_abs: int, vitality_current: u32) -> AnimationKind {
    if vitality_current == 0 {
        AnimationKind::Death
    } else if vx_abs < IDLE_MAX_MILLI {
        AnimationKind::Idle
    } else if vx_abs < WALK_MAX_MILLI {
        AnimationKind::Walk
    } else {
        AnimationKind::Run
    }
}

/// Select the animation kind from the horizontal velocity and vitality.
pub fn select_animation(vx_milli: i64, vitality_current: u32) -> (kind: AnimationKind)
    requires
        vx_milli > i64::MIN,
    ensures
        kind == spec_select(spec_abs(vx_milli as int), vitality_current),
{
    let vx_abs = if vx_milli >= 0 {
        vx_milli
    } else {
        -vx_milli
    };
    if vitality_current == 0 {
        AnimationKind::Death
    } else if vx_abs < IDLE_MAX_MILLI {
        AnimationKind::Idle
    } else if vx_abs < WALK_MAX_MILLI {
        AnimationKind::Walk
    } else {
        AnimationKind::Run
    }
}

/// The activity order of the living kinds: idle, then walk, then run.
pub open spec fn spec_activity_rank(kind: AnimationKind) -> int {
    match kind {
        AnimationKind::Idle => 0,
        AnimationKind::Walk => 1,
        AnimationKind::Run => 2,
        AnimationKind::Death => 3,
    }
}

/// For a living entity, selection is monotone in the horizontal speed: a
/// faster entity never selects a less active kind.
pub proof fn lemma_select_monotone(v1: int, v2: int, vitality_current: u32)
    requires
        0 <= v1 <= v2,
        vitality_current > 0,
    ensures
        spec_activity_rank(spec_select(v1, vitality_current)) <= spec_activity_rank(
            spec_select(v2, vitality_current),
        ),
{
}

/// Animation state of one entity: the selected range, the current frame,
/// and whether the death animation has been entered.
#[derive(Clone, Copy, PartialEq, Eq, Structural, Debug)]
pub struct AnimationState {
    pub first: u32,
    pub last: u32,
    pub frame: u32,
    pub death_played: bool,
}

impl AnimationState {
    /// The range is one of the named ranges and the frame lies within it;
    /// once the death flag is set, the range is the death range.
    pub open spec fn wf(&self) -> bool {
        &&& exists|kind: AnimationKind|
            self.first == spec_first_frame(kind) && self.last == #[trigger] spec_last_frame(kind)
        &&& self.first <= self.frame <= self.last
        &&& (self.death_played ==> self.first == spec_first_frame(AnimationKind::Death)
            && self.last == spec_last_frame(AnimationKind::Death))
    }

    /// A fresh entity idles on the first frame.
    pub fn new() -> (state: AnimationState)
        ensures
            state.wf(),
            state.first == spec_first_frame(AnimationKind::Idle),
            state.last == spec_last_frame(AnimationKind::Idle),
            state.frame == spec_first_frame(AnimationKind::Idle),
            !state.death_played,
    {
        let state = AnimationState { first: 0, last: 3, frame: 0, death_played: false };
        proof {
            assert(state.last == spec_last_frame(AnimationKind::Idle));
        }
        state
    }
}

/// The state after one selection tick: death is latched; entering death
/// jumps to its single frame and sets the flag; otherwise the range follows
/// the selected kind, restarting at its first frame when the range changes
/// and keeping the frame within an unchanged range.
pub open spec fn spec_update_animation(
    state: AnimationState,
    vx_milli: int,
    vitality_current: u32,
) -> AnimationState {
    if state.death_played {
        state
    } else {
        let kind = spec_select(spec_abs(vx_milli), vitality_current);
        let first = spec_first_frame(kind);
        let last = spec_last_frame(kind);
        AnimationState {
            first,
            last,
            frame: if state.first == first && state.last == last {
                state.frame
            } else {
                first
            },
            death_played: vitality_current == 0,
        }
    }
}

/// The state after one frame advance: the next frame of the range, wrapping
/// to its first frame.
pub open spec fn spec_advance_frame(state: AnimationState) -> AnimationState {
    AnimationState {
        frame: if state.frame == state.last {
            state.first
        } else {
            (state.frame + 1) as u32
        },
        ..state
    }
}

/// Re-select the animation range for this tick.
///
/// Death is latched: once entered (the `death_played` flag), the state
/// never changes again, whatever the velocity does later. Entering death
/// jumps to its single frame and sets the flag. Otherwise the range follows
/// the selected kind; when the range changes the frame restarts at the
/// range's first frame, and within an unchanged range the frame is kept.
pub fn update_animation(state: &mut AnimationState, vx_milli: i64, vitality_current: u32)
    requires
        old(state).wf(),
        vx_milli > i64::MIN,
    ensures
        final(state).wf(),
        *final(state) == spec_update_animation(*old(state), vx_milli as int, vitality_current),
        final(state).death_played == (old(state).death_played || vitality_current == 0),
        old(state).death_played ==> *final(state) == *old(state),
        !old(state).death_played && vitality_current == 0 ==> final(state).first
            == spec_first_frame(AnimationKind::Death) && final(state).last == spec_last_frame(
            AnimationKind::Death,
        ) && final(state).frame == spec_first_frame(AnimationKind::Death),
        !old(state).death_played && vitality_current != 0 ==> {
            let kind = spec_select(spec_abs(vx_milli as int), vitality_current);
            &&& final(state).first == spec_first_frame(kind)
            &&& final(state).last == spec_last_frame(kind)
            &&& final(state).frame == (if old(state).first == spec_first_frame(kind) && old(
                state,
            ).last == spec_last_frame(kind) {
                old(state).frame
            } else {
                spec_first_frame(kind)
            })
        },
{
    if state.death_played {
        return ;
    }
    let kind = select_animation(vx_milli, vitality_current);
    let (first, last) = match kind {
        AnimationKind::Idle => (0u32, 3u32),
        AnimationKind::Walk => (4u32, 9u32),
        AnimationKind::Run => (10u32, 15u32),
        AnimationKind::Death => (16u32, 16u32),
    };
    if state.first != first || state.last != last {
        state.first = first;
        state.last = last;
        state.frame = first;
    }
    match kind {
        AnimationKind::Death => {
            state.death_played = true;
        },
        _ => {},
    }
    proof {
        assert(state.first == spec_first_frame(kind) && state.last == spec_last_frame(kind));
    }
}

/// Advance to the next frame of the range, wrapping to its first frame;
/// a single-frame range (death) therefore stays put.
pub fn advance_frame(state: &mut AnimationState)
    requires
        old(state).wf(),
    ensures
        final(state).wf(),
        *final(state) == spec_advance_frame(*old(state)),
        final(state).first == old(state).first,
        final(state).last == old(state).last,
        final(state).death_played == old(state).death_played,
        final(state).frame as int == (if old(state).frame == old(state).last {
            old(state).first as int
        } else {
            old(state).frame + 1
        }),
{
    if state.frame == state.last {
        state.frame = state.first;
    } else {
        state.frame = state.frame + 1;
    }
}

/// Fixed-interval timer driving the frame advance.
#[derive(Clone, Copy, PartialEq, Eq, Structural, Debug)]
pub struct FrameTimer {
    pub accumulated_ms: u64,
    pub interval_ms: u64,
}

impl FrameTimer {
    pub open spec fn wf(&self) -> bool {
        0 < self.interval_ms <= 0x1_0000_0000 && self.accumulated_ms < self.interval_ms
    }

    pub fn new(interval_ms: u64) -> (timer: FrameTimer)
        requires
            0 < interval_ms <= 0x1_0000_0000,
        ensures
            timer.wf(),
            timer.interval_ms == interval_ms,
            timer.accumulated_ms == 0,
    {
        FrameTimer { accumulated_ms: 0, interval_ms }
    }

    /// Account one tick's elapsed time; fires when the interval is reached,
    /// restarting the accumulation.
    pub fn tick(&mut self, dt_ms: u32) -> (fired: bool)
        requires
            old(self).wf(),
        ensures
            final(self).wf(),
            final(self).interval_ms == old(self).interval_ms,
            fired == (old(self).accumulated_ms + dt_ms >= old(self).interval_ms),
            final(self).accumulated_ms as int == (if old(self).accumulated_ms + dt_ms >= old(
                self,
            ).interval_ms {
                0int
            } else {
                old(self).accumulated_ms + dt_ms
            }),
    {
        let total = self.accumulated_ms + (dt_ms as u64);
        if total >= self.interval_ms {
            self.accumulated_ms = 0;
            true
        } else {
            self.accumulated_ms = total;
            false
        }
    }
}

} // verus!

