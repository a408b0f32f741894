use platformer_core::entities::{collider_config, Armor, BodyKind, EntityKind, Vitality};
use platformer_core::grid::GridIndex;
use platformer_core::level::{level_contains, update_level_selection, LevelBounds};
use platformer_core::locomotion::Vec2;
use platformer_core::Cell;

#[test]
fn grid_index_records_cells_per_level() {
    let mut index = GridIndex::new();
    index.insert(1, Cell { x: 0, y: 0 });
    index.insert(1, Cell { x: 1, y: 0 });
    index.insert(2, Cell { x: 0, y: 0 });
    let first = index.cells_of(1).expect("level 1 recorded");
    assert_eq!(first.len(), 2);
    let second = index.cells_of(2).expect("level 2 recorded");
    assert_eq!(second.len(), 1);
}

#[test]
fn repeated_cells_are_recorded_once() {
    let mut index = GridIndex::new();
    index.insert(1, Cell { x: 3, y: 4 });
    index.insert(1, Cell { x: 3, y: 4 });
    assert_eq!(index.cells_of(1).expect("level 1 recorded").len(), 1);
}

#[test]
fn clearing_a_level_drops_only_its_cells() {
    let mut index = GridIndex::new();
    index.insert(1, Cell { x: 0, y: 0 });
    index.insert(2, Cell { x: 5, y: 5 });
    index.clear_level(1);
    assert!(index.cells_of(1).is_none());
    assert_eq!(index.cells_of(2).expect("level 2 kept").len(), 1);
}

#[test]
fn level_bounds_are_strict() {
    let level = LevelBounds { id: 1, x: 0, y: 0, width: 10000, height: 10000 };
    assert!(level_contains(&level, Vec2 { x: 5000, y: 5000 }));
    assert!(!level_contains(&level, Vec2 { x: 0, y: 5000 }));
    assert!(!level_contains(&level, Vec2 { x: 10000, y: 5000 }));
    assert!(!level_contains(&level, Vec2 { x: 5000, y: 10000 }));
}

#[test]
fn selection_moves_to_the_containing_level() {
    let levels = vec![
        LevelBounds { id: 1, x: 0, y: 0, width: 10000, height: 10000 },
        LevelBounds { id: 2, x: 20000, y: 0, width: 10000, height: 10000 },
    ];
    let selection = update_level_selection(&levels, 1, Vec2 { x: 25000, y: 5000 });
    assert_eq!(selection, 2);
    // A position inside the already-selected level keeps the selection.
    let selection = update_level_selection(&levels, 2, Vec2 { x: 25000, y: 5000 });
    assert_eq!(selection, 2);
    // A position outside every level keeps the selection too.
    let selection = update_level_selection(&levels, 2, Vec2 { x: 15000, y: 5000 });
    assert_eq!(selection, 2);
}

#[test]
fn vitality_damage_saturates_at_zero() {
    let mut vitality = Vitality::new(100, 50);
    vitality.damage(30);
    assert_eq!(vitality.current, 70);
    assert!(!vitality.is_dead());
    vitality.damage(200);
    assert_eq!(vitality.current, 0);
    assert!(vitality.is_dead());
    assert_eq!(vitality.max, 100);
}

#[test]
fn hunger_saturates_at_zero() {
    let mut vitality = Vitality::new(100, 5);
    vitality.starve(3);
    assert_eq!(vitality.hunger, 2);
    vitality.starve(10);
    assert_eq!(vitality.hunger, 0);
    assert_eq!(vitality.current, 100);
}

#[test]
fn entity_kinds_spawn_with_their_bodies() {
    let player = collider_config(EntityKind::Player);
    assert_eq!((player.half_extent_x, player.half_extent_y), (6000, 14000));
    assert_eq!(player.body, BodyKind::Dynamic);
    assert_eq!(player.friction_milli, 0);
    assert!(player.friction_combine_min);

    let mob = collider_config(EntityKind::Mob);
    assert_eq!((mob.half_extent_x, mob.half_extent_y), (5000, 5000));
    assert_eq!(mob.body, BodyKind::KinematicVelocityBased);

    let chest = collider_config(EntityKind::Chest);
    assert_eq!((chest.half_extent_x, chest.half_extent_y), (8000, 8000));
    assert_eq!(chest.density_milli, 15000);
    assert_eq!(chest.friction_milli, 500);

    let other = collider_config(EntityKind::Other);
    assert_eq!(other.body, BodyKind::EngineDefault);
}

#[test]
fn armor_absorbs_up_to_its_value() {
    let armor = Armor { value: 3 };
    assert_eq!(armor.absorb(10), 7);
    assert_eq!(armor.absorb(3), 0);
    assert_eq!(armor.absorb(2), 0);
}
