use platformer_core::animation::{
    advance_frame, select_animation, update_animation, AnimationKind, AnimationState, FrameTimer,
};

#[test]
fn selection_thresholds_are_exact() {
    // Below 0.01 world units per second (10 milli-units): idle.
    assert_eq!(select_animation(0, 100), AnimationKind::Idle);
    assert_eq!(select_animation(9, 100), AnimationKind::Idle);
    assert_eq!(select_animation(-9, 100), AnimationKind::Idle);
    // From 0.01 up to but excluding 2.1: walk.
    assert_eq!(select_animation(10, 100), AnimationKind::Walk);
    assert_eq!(select_animation(-2099, 100), AnimationKind::Walk);
    // From 2.1 on: run.
    assert_eq!(select_animation(2100, 100), AnimationKind::Run);
    assert_eq!(select_animation(-3000, 100), AnimationKind::Run);
}

#[test]
fn exhausted_vitality_overrides_every_speed() {
    assert_eq!(select_animation(0, 0), AnimationKind::Death);
    assert_eq!(select_animation(2100, 0), AnimationKind::Death);
    assert_eq!(select_animation(-3000, 0), AnimationKind::Death);
}

#[test]
fn running_entity_dies_and_the_death_range_latches() {
    let mut state = AnimationState::new();
    // |velocity.x| = 3.0 world units per second selects the run range.
    update_animation(&mut state, 3000, 100);
    assert_eq!((state.first, state.last), (10, 15));
    assert!(!state.death_played);
    // Vitality reaches zero on the next tick: the death range is selected
    // and the flag set.
    update_animation(&mut state, 3000, 0);
    assert_eq!((state.first, state.last), (16, 16));
    assert_eq!(state.frame, 16);
    assert!(state.death_played);
    // The flag is permanent even if the velocity later changes.
    update_animation(&mut state, 0, 0);
    assert!(state.death_played);
    assert_eq!((state.first, state.last), (16, 16));
}

#[test]
fn range_change_restarts_at_the_first_frame() {
    let mut state = AnimationState::new();
    advance_frame(&mut state);
    assert_eq!(state.frame, 1);
    // Same range selected: frame kept.
    update_animation(&mut state, 0, 100);
    assert_eq!(state.frame, 1);
    // New range selected: frame restarts at its first frame.
    update_animation(&mut state, 50, 100);
    assert_eq!((state.first, state.last), (4, 9));
    assert_eq!(state.frame, 4);
}

#[test]
fn frame_advance_wraps_within_the_range() {
    let mut state = AnimationState::new();
    for expected in [1, 2, 3, 0, 1] {
        advance_frame(&mut state);
        assert_eq!(state.frame, expected);
    }
}

#[test]
fn death_frame_freezes() {
    let mut state = AnimationState::new();
    update_animation(&mut state, 0, 0);
    advance_frame(&mut state);
    assert_eq!(state.frame, 16);
    advance_frame(&mut state);
    assert_eq!(state.frame, 16);
}

#[test]
fn frame_timer_fires_on_the_interval() {
    let mut timer = FrameTimer::new(100);
    assert!(!timer.tick(40));
    assert_eq!(timer.accumulated_ms, 40);
    assert!(timer.tick(60));
    assert_eq!(timer.accumulated_ms, 0);
    assert!(timer.tick(250));
    assert_eq!(timer.accumulated_ms, 0);
}
