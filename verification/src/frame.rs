//! One simulation frame for one entity, in the fixed system order.
//!
//! Per tick, the systems run to completion in a deterministic order —
//! sensors before locomotion before animation — so a frame's overlap events
//! are visible to that same frame's locomotion resolution, and the frame's
//! resolved velocity feeds that same frame's animation selection. Nothing
//! suspends mid-tick.

use vstd::prelude::*;

use crate::animation::{
    advance_frame, spec_advance_frame, spec_update_animation, update_animation, AnimationState,
    FrameTimer,
};
use crate::entities::Vitality;
use crate::locomotion::{
    div1000_trunc, locomotion_tick, sat_sub_i64, spec_first_hit, spec_gravity_delta,
    spec_locomotion_mode, spec_penetration, tiles_wf, coord_wf, size_wf, GravityScale,
    LocomotionMode, TickInput, Tile, Vec2, DT_LIMIT, INPUT_LIMIT,
};
use crate::sensors::{detect_climb_range, id_set, spec_apply_overlap_events, Climber, OverlapEvent};

verus! {

/// Run one entity's whole frame: apply the frame's overlap events to the
/// climbable sensor, resolve locomotion from the updated flags, then select
/// and advance the animation from the resolved velocity.
pub fn entity_frame(
    position: &mut Vec2,
    velocity: &mut Vec2,
    size: Vec2,
    climber: &mut Climber,
    gravity_scale: &mut GravityScale,
    vitality: &Vitality,
    animation: &mut AnimationState,
    frame_timer: &mut FrameTimer,
    entity_id: u64,
    climbables: &Vec<u64>,
    events: &Vec<OverlapEvent>,
    input: TickInput,
    tiles: &Vec<Tile>,
    dt_ms: u32,
)
    requires
        old(climber).wf(),
        old(animation).wf(),
        old(frame_timer).wf(),
        coord_wf(*old(position)),
        size_wf(size),
        tiles_wf(tiles@),
        -INPUT_LIMIT <= input.move_x <= INPUT_LIMIT,
        -INPUT_LIMIT <= input.move_y <= INPUT_LIMIT,
        dt_ms <= DT_LIMIT,
        old(velocity).x > i64::MIN,
    ensures
        // Sensors: the frame's overlap events are folded into the set first.
        final(climber).wf(),
        final(climber).overlaps() == spec_apply_overlap_events(
            old(climber).overlaps(),
            entity_id,
            id_set(climbables@),
            events@,
            0,
        ),
        // The climbing flag and the gravity scale follow within the tick.
        final(climber).climbing == (input.climb_intent
            && final(climber).intersecting_climbables@.len() != 0),
        final(gravity_scale).factor == (if final(climber).climbing {
            0u32
        } else {
            1u32
        }),
        // Locomotion, from the flags this same frame settled.
        ({
            let mode = spec_locomotion_mode(vitality.current, final(climber).climbing);
            match mode {
                LocomotionMode::Dead => {
                    &&& *final(velocity) == (Vec2 { x: 0, y: 0 })
                    &&& *final(position) == *old(position)
                },
                LocomotionMode::Climbing => {
                    &&& *final(velocity) == (Vec2 { x: input.move_x, y: input.move_y })
                    &&& final(position).x == old(position).x + div1000_trunc(
                        input.move_x * dt_ms as int,
                    )
                    &&& final(position).y == old(position).y + div1000_trunc(
                        input.move_y * dt_ms as int,
                    )
                },
                LocomotionMode::Grounded => {
                    let k = spec_first_hit(tiles@, *old(position), size, 0);
                    &&& final(velocity).x == old(velocity).x
                    &&& final(position).x == old(position).x
                    &&& (if k >= 0 {
                        final(velocity).y == 0 && final(position).y as int == old(position).y
                            + (-spec_penetration(*old(position), size, tiles@[k]))
                    } else {
                        final(position).y == old(position).y && final(velocity).y as int
                            == sat_sub_i64(
                            old(velocity).y as int,
                            spec_gravity_delta(1, dt_ms as int),
                        )
                    })
                },
            }
        }),
        // Animation, from the velocity this same frame resolved; the frame
        // advances when the fixed-interval timer fires.
        final(animation).wf(),
        final(frame_timer).wf(),
        final(frame_timer).interval_ms == old(frame_timer).interval_ms,
        ({
            let fired = old(frame_timer).accumulated_ms + dt_ms >= old(frame_timer).interval_ms;
            let selected = spec_update_animation(
                *old(animation),
                final(velocity).x as int,
                vitality.current,
            );
            &&& final(frame_timer).accumulated_ms as int == (if fired {
                0int
            } else {
                old(frame_timer).accumulated_ms + dt_ms
            })
            &&& *final(animation) == (if fired {
                spec_advance_frame(selected)
            } else {
                selected
            })
        }),
{
    detect_climb_range(entity_id, climbables, climber, events);
    locomotion_tick(
        position,
        velocity,
        size,
        climber,
        gravity_scale,
        vitality.current,
        input,
        tiles,
        dt_ms,
    );
    proof {
        assert(velocity.x > i64::MIN);
    }
    update_animation(animation, velocity.x, vitality.current);
    let fired = frame_timer.tick(dt_ms);
    if fired {
        advance_frame(animation);
    }
}

} // verus!
