use platformer_core::animation::{AnimationState, FrameTimer};
use platformer_core::entities::Vitality;
use platformer_core::frame::entity_frame;
use platformer_core::locomotion::{
    apply_gravity, death_zone_victims, handle_collisions, ignore_gravity_if_climbing,
    is_colliding, locomotion_tick, update_climbing, Aabb, DeathZone, GravityScale, TickInput,
    Tile, Vec2,
};
use platformer_core::sensors::{
    detect_climb_range, ground_detection, update_on_ground, Climber, GroundDetection,
    GroundSensor, OverlapEvent,
};

#[test]
fn begin_then_end_in_same_order_empties_the_set() {
    let mut climber = Climber::new();
    let climbables = vec![7u64];
    let events = vec![OverlapEvent::Started(1, 7), OverlapEvent::Stopped(1, 7)];
    detect_climb_range(1, &climbables, &mut climber, &events);
    assert!(climber.intersecting_climbables.is_empty());
}

#[test]
fn begin_then_end_in_swapped_order_empties_the_set() {
    let mut climber = Climber::new();
    let climbables = vec![7u64];
    let events = vec![OverlapEvent::Started(7, 1), OverlapEvent::Stopped(1, 7)];
    detect_climb_range(1, &climbables, &mut climber, &events);
    assert!(climber.intersecting_climbables.is_empty());

    let mut climber = Climber::new();
    let events = vec![OverlapEvent::Started(1, 7), OverlapEvent::Stopped(7, 1)];
    detect_climb_range(1, &climbables, &mut climber, &events);
    assert!(climber.intersecting_climbables.is_empty());
}

#[test]
fn begin_event_records_the_surface() {
    let mut climber = Climber::new();
    let climbables = vec![7u64, 9u64];
    let events = vec![OverlapEvent::Started(1, 7)];
    detect_climb_range(1, &climbables, &mut climber, &events);
    assert_eq!(climber.intersecting_climbables, vec![7u64]);
}

#[test]
fn duplicate_or_late_end_events_are_no_ops() {
    let mut climber = Climber::new();
    let climbables = vec![7u64];
    let events = vec![
        OverlapEvent::Stopped(1, 7),
        OverlapEvent::Started(1, 7),
        OverlapEvent::Stopped(1, 7),
        OverlapEvent::Stopped(1, 7),
    ];
    detect_climb_range(1, &climbables, &mut climber, &events);
    assert!(climber.intersecting_climbables.is_empty());
}

#[test]
fn events_for_other_entities_are_ignored() {
    let mut climber = Climber::new();
    let climbables = vec![7u64];
    let events = vec![OverlapEvent::Started(2, 7), OverlapEvent::Started(3, 7)];
    detect_climb_range(1, &climbables, &mut climber, &events);
    assert!(climber.intersecting_climbables.is_empty());
}

#[test]
fn ground_sensor_drives_the_ground_flag() {
    let mut sensor = GroundSensor::new();
    let grounds = vec![40u64];
    let mut detection = GroundDetection { on_ground: false };
    ground_detection(11, &grounds, &mut sensor, &vec![OverlapEvent::Started(40, 11)]);
    update_on_ground(&mut detection, &sensor);
    assert!(detection.on_ground);
    ground_detection(11, &grounds, &mut sensor, &vec![OverlapEvent::Stopped(11, 40)]);
    update_on_ground(&mut detection, &sensor);
    assert!(!detection.on_ground);
}

#[test]
fn climbing_flag_follows_overlap_and_intent() {
    let mut climber = Climber::new();
    update_climbing(&mut climber, true);
    assert!(!climber.climbing); // intent without overlap

    climber.intersecting_climbables.push(7);
    update_climbing(&mut climber, false);
    assert!(!climber.climbing); // overlap without intent

    update_climbing(&mut climber, true);
    assert!(climber.climbing);
}

#[test]
fn gravity_scale_is_zero_exactly_while_climbing() {
    let mut climber = Climber::new();
    climber.intersecting_climbables.push(7);
    update_climbing(&mut climber, true);
    let mut scale = GravityScale { factor: 1 };
    ignore_gravity_if_climbing(&climber, &mut scale);
    assert_eq!(scale.factor, 0);

    update_climbing(&mut climber, false);
    ignore_gravity_if_climbing(&climber, &mut scale);
    assert_eq!(scale.factor, 1);
}

#[test]
fn gravity_integrates_the_exact_milli_formula() {
    // 19610 milli-units/s² over 16 ms: 19610 * 16 / 1000 = 313.
    let mut velocity = Vec2 { x: 250, y: 0 };
    apply_gravity(&mut velocity, &GravityScale { factor: 1 }, 16);
    assert_eq!(velocity, Vec2 { x: 250, y: -313 });
}

#[test]
fn zero_gravity_scale_suppresses_gravity() {
    let mut velocity = Vec2 { x: 250, y: -40 };
    apply_gravity(&mut velocity, &GravityScale { factor: 0 }, 16);
    assert_eq!(velocity, Vec2 { x: 250, y: -40 });
}

#[test]
fn aabb_overlap_is_strict() {
    let size = Vec2 { x: 2000, y: 2000 };
    let a = Vec2 { x: 0, y: 0 };
    let touching = Vec2 { x: 2000, y: 0 };
    let overlapping = Vec2 { x: 1999, y: 0 };
    assert!(!is_colliding(a, size, touching, size));
    assert!(is_colliding(a, size, overlapping, size));
}

#[test]
fn penetrating_entity_snaps_onto_the_tile() {
    // Tile top at y = 10000; the entity's lower bound sits 1000 below it.
    let tile = Tile {
        position: Vec2 { x: 0, y: -6000 },
        size: Vec2 { x: 32000, y: 32000 },
        ground: true,
    };
    let mut position = Vec2 { x: 0, y: 10000 };
    let mut velocity = Vec2 { x: 500, y: -900 };
    handle_collisions(
        &mut position,
        &mut velocity,
        Vec2 { x: 2000, y: 2000 },
        &GravityScale { factor: 1 },
        &vec![tile],
        16,
    );
    assert_eq!(velocity, Vec2 { x: 500, y: 0 });
    assert_eq!(position, Vec2 { x: 0, y: 11000 });
    // The entity now rests exactly on the tile's top edge.
    assert_eq!(position.y - 1000, tile.position.y + 16000);
}

#[test]
fn free_fall_applies_gravity_when_nothing_resolves() {
    let tile = Tile {
        position: Vec2 { x: 0, y: -600000 },
        size: Vec2 { x: 32000, y: 32000 },
        ground: true,
    };
    let mut position = Vec2 { x: 0, y: 10000 };
    let mut velocity = Vec2 { x: 0, y: 0 };
    handle_collisions(
        &mut position,
        &mut velocity,
        Vec2 { x: 2000, y: 2000 },
        &GravityScale { factor: 1 },
        &vec![tile],
        1000,
    );
    assert_eq!(position, Vec2 { x: 0, y: 10000 });
    assert_eq!(velocity, Vec2 { x: 0, y: -19610 });
}

#[test]
fn non_ground_tiles_never_resolve() {
    let tile = Tile {
        position: Vec2 { x: 0, y: -6000 },
        size: Vec2 { x: 32000, y: 32000 },
        ground: false,
    };
    let mut position = Vec2 { x: 0, y: 10000 };
    let mut velocity = Vec2 { x: 0, y: -900 };
    handle_collisions(
        &mut position,
        &mut velocity,
        Vec2 { x: 2000, y: 2000 },
        &GravityScale { factor: 1 },
        &vec![tile],
        16,
    );
    assert_eq!(position.y, 10000);
    assert_eq!(velocity.y, -900 - 313);
}

#[test]
fn death_zone_flags_exactly_the_overlapping_entities() {
    let zone = DeathZone::default();
    assert_eq!(zone.position, Vec2 { x: 0, y: -200000 });
    assert_eq!(zone.size, Vec2 { x: 800000, y: 50000 });
    let entities = vec![
        Aabb { position: Vec2 { x: 0, y: -190000 }, size: Vec2 { x: 10000, y: 10000 } },
        Aabb { position: Vec2 { x: 0, y: 0 }, size: Vec2 { x: 10000, y: 10000 } },
    ];
    let victims = death_zone_victims(&zone, &entities);
    assert_eq!(victims, vec![true, false]);
}

#[test]
fn dead_entity_freezes_in_place() {
    let mut position = Vec2 { x: 3000, y: 4000 };
    let mut velocity = Vec2 { x: 700, y: -200 };
    let mut climber = Climber::new();
    let mut scale = GravityScale { factor: 1 };
    locomotion_tick(
        &mut position,
        &mut velocity,
        Vec2 { x: 2000, y: 2000 },
        &mut climber,
        &mut scale,
        0,
        TickInput { climb_intent: false, move_x: 500, move_y: 500 },
        &Vec::new(),
        16,
    );
    assert_eq!(position, Vec2 { x: 3000, y: 4000 });
    assert_eq!(velocity, Vec2 { x: 0, y: 0 });
}

#[test]
fn climbing_entity_moves_by_intent_without_gravity() {
    let mut position = Vec2 { x: 0, y: 0 };
    let mut velocity = Vec2 { x: 0, y: -900 };
    let mut climber = Climber::new();
    climber.intersecting_climbables.push(7);
    let mut scale = GravityScale { factor: 1 };
    locomotion_tick(
        &mut position,
        &mut velocity,
        Vec2 { x: 2000, y: 2000 },
        &mut climber,
        &mut scale,
        100,
        TickInput { climb_intent: true, move_x: 500, move_y: 800 },
        &Vec::new(),
        1000,
    );
    assert!(climber.climbing);
    assert_eq!(scale.factor, 0);
    assert_eq!(velocity, Vec2 { x: 500, y: 800 });
    assert_eq!(position, Vec2 { x: 500, y: 800 });
}

#[test]
fn frame_sees_its_own_overlap_events() {
    // A begin event and the climb input in the same frame: the sensors run
    // first, so the locomotion of this very frame climbs, and the animation
    // of this very frame reads the climb velocity.
    let mut position = Vec2 { x: 0, y: 0 };
    let mut velocity = Vec2 { x: 0, y: 0 };
    let mut climber = Climber::new();
    let mut scale = GravityScale { factor: 1 };
    let vitality = Vitality::new(100, 50);
    let mut animation = AnimationState::new();
    let mut timer = FrameTimer::new(100);
    entity_frame(
        &mut position,
        &mut velocity,
        Vec2 { x: 2000, y: 2000 },
        &mut climber,
        &mut scale,
        &vitality,
        &mut animation,
        &mut timer,
        1,
        &vec![7u64],
        &vec![OverlapEvent::Started(7, 1)],
        TickInput { climb_intent: true, move_x: 2500, move_y: 1000 },
        &Vec::new(),
        16,
    );
    assert!(climber.climbing);
    assert_eq!(scale.factor, 0);
    assert_eq!(velocity, Vec2 { x: 2500, y: 1000 });
    assert_eq!(position, Vec2 { x: 40, y: 16 });
    // |velocity.x| = 2.5 world units per second: the run range, selected
    // from this frame's resolved velocity.
    assert_eq!((animation.first, animation.last), (10, 15));
    assert_eq!(timer.accumulated_ms, 16);
}

#[test]
fn grounded_entity_falls_within_the_tick() {
    let mut position = Vec2 { x: 0, y: 0 };
    let mut velocity = Vec2 { x: 120, y: 0 };
    let mut climber = Climber::new();
    let mut scale = GravityScale { factor: 0 };
    locomotion_tick(
        &mut position,
        &mut velocity,
        Vec2 { x: 2000, y: 2000 },
        &mut climber,
        &mut scale,
        100,
        TickInput { climb_intent: false, move_x: 0, move_y: 0 },
        &Vec::new(),
        16,
    );
    assert!(!climber.climbing);
    // The scale is restored to one and gravity acts in the same tick.
    assert_eq!(scale.factor, 1);
    assert_eq!(velocity, Vec2 { x: 120, y: -313 });
    assert_eq!(position, Vec2 { x: 0, y: 0 });
}
