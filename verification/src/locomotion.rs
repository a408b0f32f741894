//! Locomotion: gravity, vertical collision resolution, and the per-entity
//! state machine.
//!
//! Continuous quantities are integers in milli-units: one thousandth of a
//! world unit, or of a world unit per second for velocities. Time steps are
//! milliseconds. Gravity is applied as
//! `velocity.y -= GRAVITY_MILLI * gravity_scale * dt_ms / 1000`, the exact
//! integer form of the engine's per-tick integration.
//!
//! Vertical collision resolution tests axis-aligned boxes (centre ±
//! half-extent) and corrects penetration along the vertical axis only: the
//! first ground tile the entity's lower bound penetrates zeroes the vertical
//! velocity and snaps the entity on top of the tile, scaled by the gravity
//! scale. The scaling is deliberate, documented behaviour: a climbing entity
//! (scale zero) is not snapped. Horizontal resolution belongs to the host
//! physics engine.

use vstd::prelude::*;

use crate::sensors::Climber;

verus! {

/// Downward acceleration, in milli-units per second per second.
pub const GRAVITY_MILLI: i64 = 19610;

/// Magnitude bound on positions and sizes, in milli-units; keeps every
/// intermediate sum inside `i64`.
pub const COORD_LIMIT: i64 = 0x0800_0000_0000_0000;

/// A 2D vector in milli-units.
#[derive(Clone, Copy, PartialEq, Eq, Structural, Debug)]
pub struct Vec2 {
    pub x: i64,
    pub y: i64,
}

/// An axis-aligned box: centre position and full size.
#[derive(Clone, Copy, PartialEq, Eq, Structural, Debug)]
pub struct Aabb {
    pub position: Vec2,
    pub size: Vec2,
}

/// A terrain tile: an axis-aligned box that may count as ground.
#[derive(Clone, Copy, PartialEq, Eq, Structural, Debug)]
pub struct Tile {
    pub position: Vec2,
    pub size: Vec2,
    pub ground: bool,
}

/// Side length of a standard tile, in milli-units (32 world units).
pub const TILE_SIZE_MILLI: i64 = 32000;

impl Default for Tile {
    /// A standard tile: square, counting as ground, at the origin.
    fn default() -> (t: Tile)
        ensures
            t.size.x == TILE_SIZE_MILLI,
            t.size.y == TILE_SIZE_MILLI,
            t.ground,
            t.position == (Vec2 { x: 0, y: 0 }),
    {
        Tile {
            position: Vec2 { x: 0, y: 0 },
            size: Vec2 { x: TILE_SIZE_MILLI, y: TILE_SIZE_MILLI },
            ground: true,
        }
    }
}

/// A region that despawns whatever touches it.
#[derive(Clone, Copy, PartialEq, Eq, Structural, Debug)]
pub struct DeathZone {
    pub position: Vec2,
    pub size: Vec2,
}

impl Default for DeathZone {
    /// The standard pit below the level: 800 by 50 world units, centred
    /// 200 world units under the origin.
    fn default() -> (zone: DeathZone)
        ensures
            zone.position == (Vec2 { x: 0, y: -200000i64 }),
            zone.size == (Vec2 { x: 800000, y: 50000 }),
    {
        DeathZone {
            position: Vec2 { x: 0, y: -200000 },
            size: Vec2 { x: 800000, y: 50000 },
        }
    }
}

/// Gravity multiplier of one entity: zero disables gravity.
#[derive(Clone, Copy, PartialEq, Eq, Structural, Debug)]
pub struct GravityScale {
    pub factor: u32,
}

impl GravityScale {
    /// The factor is zero (climbing) or one (everything else).
    pub open spec fn wf(&self) -> bool {
        self.factor <= 1
    }
}

/// A coordinate pair within the sum-safe range.
pub open spec fn coord_wf(v: Vec2) -> bool {
    -COORD_LIMIT <= v.x <= COORD_LIMIT && -COORD_LIMIT <= v.y <= COORD_LIMIT
}

/// A size: non-negative and within the sum-safe range.
pub open spec fn size_wf(v: Vec2) -> bool {
    0 <= v.x <= COORD_LIMIT && 0 <= v.y <= COORD_LIMIT
}

/// Subtraction clamped to the `i64` range.
pub open spec fn sat_sub_i64(a: int, b: int) -> int {
    if a - b < i64::MIN {
        i64::MIN as int
    } else if a - b > i64::MAX {
        i64::MAX as int
    } else {
        a - b
    }
}

fn sat_sub(a: i64, b: i64) -> (r: i64)
    ensures
        r as int == sat_sub_i64(a as int, b as int),
{
    if b >= 0 {
        if a >= i64::MIN + b {
            a - b
        } else {
            i64::MIN
        }
    } else {
        if a <= i64::MAX + b {
            a - b
        } else {
            i64::MAX
        }
    }
}

/// Division by 1000 with rounding toward zero, as the machine divides.
pub open spec fn div1000_trunc(a: int) -> int {
    if a >= 0 {
        a / 1000
    } else {
        -((-a) / 1000)
    }
}

/// The velocity decrement one tick of gravity applies.
pub open spec fn spec_gravity_delta(factor: int, dt_ms: int) -> int {
    GRAVITY_MILLI * factor * dt_ms / 1000
}

/// Apply one tick of gravity: `velocity.y` falls by the gravity delta,
/// clamped at the numeric limit; `velocity.x` is untouched.
pub fn apply_gravity(velocity: &mut Vec2, gravity_scale: &GravityScale, dt_ms: u32)
    requires
        gravity_scale.wf(),
    ensures
        final(velocity).x == old(velocity).x,
        final(velocity).y as int == sat_sub_i64(
            old(velocity).y as int,
            spec_gravity_delta(gravity_scale.factor as int, dt_ms as int),
        ),
{
    proof {
        assert(0 <= GRAVITY_MILLI * (gravity_scale.factor as int) * (dt_ms as int)
            <= GRAVITY_MILLI * 0x1_0000_0000) by (nonlinear_arith)
            requires
                0 <= gravity_scale.factor <= 1,
                0 <= (dt_ms as int) < 0x1_0000_0000,
        ;
    }
    let delta = GRAVITY_MILLI * (gravity_scale.factor as i64) * (dt_ms as i64) / 1000;
    velocity.y = sat_sub(velocity.y, delta);
}

/// Whether two axis-aligned boxes (centre, full size) overlap.
pub open spec fn spec_colliding(a_pos: Vec2, a_size: Vec2, b_pos: Vec2, b_size: Vec2) -> bool {
    &&& a_pos.x - a_size.x / 2 < b_pos.x + b_size.x / 2
    &&& a_pos.x + a_size.x / 2 > b_pos.x - b_size.x / 2
    &&& a_pos.y - a_size.y / 2 < b_pos.y + b_size.y / 2
    &&& a_pos.y + a_size.y / 2 > b_pos.y - b_size.y / 2
}

/// Whether two boxes overlap, by strict comparison of their bounds.
pub fn is_colliding(a_pos: Vec2, a_size: Vec2, b_pos: Vec2, b_size: Vec2) -> (hit: bool)
    requires
        coord_wf(a_pos),
        coord_wf(b_pos),
        size_wf(a_size),
        size_wf(b_size),
    ensures
        hit == spec_colliding(a_pos, a_size, b_pos, b_size),
{
    let a_min_x = a_pos.x - a_size.x / 2;
    let a_max_x = a_pos.x + a_size.x / 2;
    let a_min_y = a_pos.y - a_size.y / 2;
    let a_max_y = a_pos.y + a_size.y / 2;
    let b_min_x = b_pos.x - b_size.x / 2;
    let b_max_x = b_pos.x + b_size.x / 2;
    let b_min_y = b_pos.y - b_size.y / 2;
    let b_max_y = b_pos.y + b_size.y / 2;
    a_min_x < b_max_x && a_max_x > b_min_x && a_min_y < b_max_y && a_max_y > b_min_y
}

/// How far the entity's lower bound lies below the tile's upper bound;
/// negative when it penetrates.
pub open spec fn spec_penetration(pos: Vec2, size: Vec2, tile: Tile) -> int {
    (pos.y - size.y / 2) - (tile.position.y + tile.size.y / 2)
}

/// Whether this ground tile resolves the entity's vertical collision.
pub open spec fn spec_resolves(pos: Vec2, size: Vec2, tile: Tile) -> bool {
    &&& tile.ground
    &&& spec_colliding(pos, size, tile.position, tile.size)
    &&& spec_penetration(pos, size, tile) < 0
}

/// Index of the first tile, at `i` or later, that resolves the collision;
/// -1 when none does.
pub open spec fn spec_first_hit(tiles: Seq<Tile>, pos: Vec2, size: Vec2, i: int) -> int
    decreases tiles.len() - i,
{
    if i < 0 || i >= tiles.len() {
        -1
    } else if spec_resolves(pos, size, tiles[i]) {
        i
    } else {
        spec_first_hit(tiles, pos, size, i + 1)
    }
}

/// Every tile's position and size are in range.
pub open spec fn tiles_wf(tiles: Seq<Tile>) -> bool {
    forall|i: int| 0 <= i < tiles.len() ==> coord_wf((#[trigger] tiles[i]).position) && size_wf(
        tiles[i].size,
    )
}

/// Resolve vertical motion against the terrain for one tick.
///
/// The first ground tile whose top the entity's lower bound penetrates
/// zeroes the vertical velocity and lifts the entity by the penetration
/// depth, scaled by the gravity factor. When no tile resolves, gravity is
/// applied instead. Horizontal position and velocity are never touched.
pub fn handle_collisions(
    position: &mut Vec2,
    velocity: &mut Vec2,
    size: Vec2,
    gravity_scale: &GravityScale,
    tiles: &Vec<Tile>,
    dt_ms: u32,
)
    requires
        coord_wf(*old(position)),
        size_wf(size),
        tiles_wf(tiles@),
        gravity_scale.wf(),
    ensures
        final(position).x == old(position).x,
        final(velocity).x == old(velocity).x,
        ({
            let k = spec_first_hit(tiles@, *old(position), size, 0);
            if k >= 0 {
                &&& final(velocity).y == 0
                &&& final(position).y as int == old(position).y
                    + (-spec_penetration(*old(position), size, tiles@[k])) * (
                gravity_scale.factor as int)
            } else {
                &&& final(position).y == old(position).y
                &&& final(velocity).y as int == sat_sub_i64(
                    old(velocity).y as int,
                    spec_gravity_delta(gravity_scale.factor as int, dt_ms as int),
                )
            }
        }),
{
    let mut i: usize = 0;
    while i < tiles.len()
        invariant
            0 <= i <= tiles@.len(),
            coord_wf(*position),
            *position == *old(position),
            *velocity == *old(velocity),
            size_wf(size),
            tiles_wf(tiles@),
            gravity_scale.wf(),
            spec_first_hit(tiles@, *position, size, 0) == spec_first_hit(
                tiles@,
                *position,
                size,
                i as int,
            ),
        decreases tiles@.len() - i,
    {
        let tile = tiles[i];
        if tile.ground && is_colliding(*position, size, tile.position, tile.size) {
            let tile_top = tile.position.y + tile.size.y / 2;
            let entity_bottom = position.y - size.y / 2;
            let penetration = entity_bottom - tile_top;
            if penetration < 0 {
                proof {
                    assert(spec_first_hit(tiles@, *position, size, i as int) == i as int);
                }
                velocity.y = 0;
                let lift = if gravity_scale.factor == 0 {
                    0
                } else {
                    -penetration
                };
                proof {
                    let pen = spec_penetration(*old(position), size, tiles@[i as int]);
                    if gravity_scale.factor == 0 {
                        assert((-pen) * 0 == 0);
                    } else {
                        assert(gravity_scale.factor == 1);
                        assert((-pen) * 1 == -pen);
                    }
                    assert(lift as int == (-pen) * (gravity_scale.factor as int));
                }
                position.y = position.y + lift;
                return ;
            }
        }
        proof {
            assert(!spec_resolves(*position, size, tiles@[i as int]));
        }
        i = i + 1;
    }
    apply_gravity(velocity, gravity_scale, dt_ms);
}

/// Which entities an active death zone removes: one flag per entity,
/// true exactly when its box overlaps the zone.
pub fn death_zone_victims(zone: &DeathZone, entities: &Vec<Aabb>) -> (victims: Vec<bool>)
    requires
        coord_wf(zone.position),
        size_wf(zone.size),
        forall|i: int| 0 <= i < entities@.len() ==> coord_wf((#[trigger] entities@[i]).position)
            && size_wf(entities@[i].size),
    ensures
        victims@.len() == entities@.len(),
        forall|i: int| 0 <= i < entities@.len() ==> victims@[i] == spec_colliding(
            (#[trigger] entities@[i]).position,
            entities@[i].size,
            zone.position,
            zone.size,
        ),
{
    let mut victims: Vec<bool> = Vec::new();
    let mut i: usize = 0;
    while i < entities.len()
        invariant
            0 <= i <= entities@.len(),
            victims@.len() == i,
            coord_wf(zone.position),
            size_wf(zone.size),
            forall|j: int| 0 <= j < entities@.len() ==> coord_wf(
                (#[trigger] entities@[j]).position,
            ) && size_wf(entities@[j].size),
            forall|j: int| 0 <= j < i ==> victims@[j] == spec_colliding(
                (#[trigger] entities@[j]).position,
                entities@[j].size,
                zone.position,
                zone.size,
            ),
        decreases entities@.len() - i,
    {
        let e = entities[i];
        let hit = is_colliding(e.position, e.size, zone.position, zone.size);
        victims.push(hit);
        i = i + 1;
    }
    victims
}

/// An entity climbs exactly while it overlaps a climbable surface and the
/// climb input is held.
pub fn update_climbing(climber: &mut Climber, climb_intent: bool)
    requires
        old(climber).wf(),
    ensures
        final(climber).wf(),
        final(climber).climbing == (climb_intent && old(
            climber,
        ).intersecting_climbables@.len() != 0),
        final(climber).intersecting_climbables@ == old(climber).intersecting_climbables@,
{
    let any = climber.overlapping_any();
    climber.climbing = climb_intent && any;
}

/// Gravity is suppressed exactly while climbing: the scale is forced to
/// zero during a climb and restored to one otherwise.
pub fn ignore_gravity_if_climbing(climber: &Climber, gravity_scale: &mut GravityScale)
    ensures
        final(gravity_scale).wf(),
        final(gravity_scale).factor == (if climber.climbing {
            0u32
        } else {
            1u32
        }),
{
    if climber.climbing {
        gravity_scale.factor = 0;
    } else {
        gravity_scale.factor = 1;
    }
}

/// The discrete locomotion state of an entity for one tick.
#[derive(Clone, Copy, PartialEq, Eq, Structural, Debug)]
pub enum LocomotionMode {
    /// Default state: falling under gravity, or resting on ground.
    Grounded,
    /// Overlapping a climbable surface with climb input held.
    Climbing,
    /// Vitality exhausted: frozen in place.
    Dead,
}

/// Exhausted vitality wins over everything; climbing wins over the default.
pub open spec fn spec_locomotion_mode(vitality_current: u32, climbing: bool) -> LocomotionMode {
    if vitality_current == 0 {
        LocomotionMode::Dead
    } else if climbing {
        LocomotionMode::Climbing
    } else {
        LocomotionMode::Grounded
    }
}

pub fn locomotion_mode(vitality_current: u32, climber: &Climber) -> (mode: LocomotionMode)
    ensures
        mode == spec_locomotion_mode(vitality_current, climber.climbing),
{
    if vitality_current == 0 {
        LocomotionMode::Dead
    } else if climber.climbing {
        LocomotionMode::Climbing
    } else {
        LocomotionMode::Grounded
    }
}

/// Magnitude bound on movement intent, in milli-units per second.
pub const INPUT_LIMIT: i64 = 10_000_000;

/// Time-step bound, in milliseconds.
pub const DT_LIMIT: u32 = 1_000_000;

/// Per-tick input for one controllable entity.
#[derive(Clone, Copy, PartialEq, Eq, Structural, Debug)]
pub struct TickInput {
    /// Whether the climb input is held.
    pub climb_intent: bool,
    /// Movement intent, in milli-units per second; drives the velocity
    /// directly while climbing.
    pub move_x: i64,
    pub move_y: i64,
}

/// One locomotion tick for one entity, in the fixed order sensors feed it:
/// the climbing flag is settled from the overlap set and the climb input,
/// the gravity scale follows the flag within the same tick, and then the
/// mode decides — a dead entity freezes with zero velocity, a climbing
/// entity's velocity is driven directly by the movement intent and
/// integrated, and otherwise the terrain resolves gravity and snapping.
pub fn locomotion_tick(
    position: &mut Vec2,
    velocity: &mut Vec2,
    size: Vec2,
    climber: &mut Climber,
    gravity_scale: &mut GravityScale,
    vitality_current: u32,
    input: TickInput,
    tiles: &Vec<Tile>,
    dt_ms: u32,
)
    requires
        old(climber).wf(),
        coord_wf(*old(position)),
        size_wf(size),
        tiles_wf(tiles@),
        -INPUT_LIMIT <= input.move_x <= INPUT_LIMIT,
        -INPUT_LIMIT <= input.move_y <= INPUT_LIMIT,
        dt_ms <= DT_LIMIT,
    ensures
        final(climber).wf(),
        final(climber).climbing == (input.climb_intent && old(
            climber,
        ).intersecting_climbables@.len() != 0),
        final(climber).intersecting_climbables@ == old(climber).intersecting_climbables@,
        // Gravity suppression is observed in the same tick as the flag.
        final(gravity_scale).factor == (if final(climber).climbing {
            0u32
        } else {
            1u32
        }),
        ({
            let mode = spec_locomotion_mode(vitality_current, final(climber).climbing);
            match mode {
                LocomotionMode::Dead => {
                    &&& *final(velocity) == (Vec2 { x: 0, y: 0 })
                    &&& *final(position) == *old(position)
                },
                LocomotionMode::Climbing => {
                    &&& *final(velocity) == (Vec2 { x: input.move_x, y: input.move_y })
                    &&& final(position).x == old(position).x + div1000_trunc(
                        input.move_x * dt_ms as int,
                    )
                    &&& final(position).y == old(position).y + div1000_trunc(
                        input.move_y * dt_ms as int,
                    )
                },
                LocomotionMode::Grounded => {
                    let k = spec_first_hit(tiles@, *old(position), size, 0);
                    &&& final(velocity).x == old(velocity).x
                    &&& final(position).x == old(position).x
                    &&& (if k >= 0 {
                        final(velocity).y == 0 && final(position).y as int == old(position).y
                            + (-spec_penetration(*old(position), size, tiles@[k]))
                    } else {
                        final(position).y == old(position).y && final(velocity).y as int
                            == sat_sub_i64(
                            old(velocity).y as int,
                            spec_gravity_delta(1, dt_ms as int),
                        )
                    })
                },
            }
        }),
{
    update_climbing(climber, input.climb_intent);
    ignore_gravity_if_climbing(climber, gravity_scale);
    let mode = locomotion_mode(vitality_current, climber);
    match mode {
        LocomotionMode::Dead => {
            velocity.x = 0;
            velocity.y = 0;
        },
        LocomotionMode::Climbing => {
            velocity.x = input.move_x;
            velocity.y = input.move_y;
            proof {
                assert(forall|m: int, d: int|
                    -INPUT_LIMIT <= m <= INPUT_LIMIT && 0 <= d <= DT_LIMIT
                        ==> -0x2386_F26F_C10000 <= #[trigger] (m * d)
                            <= 0x2386_F26F_C10000) by (nonlinear_arith);
            }
            position.x = position.x + input.move_x * (dt_ms as i64) / 1000;
            position.y = position.y + input.move_y * (dt_ms as i64) / 1000;
        },
        LocomotionMode::Grounded => {
            handle_collisions(position, velocity, size, gravity_scale, tiles, dt_ms);
        },
    }
}

} // verus!
