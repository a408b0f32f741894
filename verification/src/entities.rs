//! Entity markers and vitality state.
//!
//! The markers tag the controllable character and the non-player
//! characters; the engine shell attaches them to spawned entities.
//! Vitality is clamped, never signalled: damage and hunger saturate at
//! zero, and the current value never exceeds the maximum.

use vstd::prelude::*;

verus! {

/// Marker for the controllable character.
#[derive(Copy, Clone, Eq, PartialEq, Structural, Debug, Default)]
pub struct Player;

/// Marker for a non-player character.
#[derive(Copy, Clone, Eq, PartialEq, Structural, Debug, Default)]
pub struct Npc;

/// Marker for a non-player character that walks a patrol route.
#[derive(Copy, Clone, Eq, PartialEq, Structural, Debug, Default)]
pub struct NpcPatrol;

/// Flat damage reduction worn by an entity.
#[derive(Copy, Clone, Eq, PartialEq, Structural, Debug, Default)]
pub struct Armor {
    pub value: u32,
}

impl Armor {
    /// The damage left after this armor absorbs its value, floored at zero.
    pub fn absorb(&self, damage: u32) -> (remaining: u32)
        ensures
            remaining as int == (if damage >= self.value {
                damage - self.value
            } else {
                0int
            }),
    {
        if damage >= self.value {
            damage - self.value
        } else {
            0
        }
    }
}

/// The entity kinds the level format can spawn with a physics body.
#[derive(Copy, Clone, Eq, PartialEq, Structural, Debug)]
pub enum EntityKind {
    Player,
    Mob,
    Chest,
    /// Any other identifier: the engine's defaults apply.
    Other,
}

/// How an entity's rigid body moves.
#[derive(Copy, Clone, Eq, PartialEq, Structural, Debug)]
pub enum BodyKind {
    Dynamic,
    KinematicVelocityBased,
    EngineDefault,
}

/// Physics body configuration of one spawned entity, in milli-units:
/// cuboid half-extents, body kind, friction (with or without the
/// minimum-combine rule), gravity scale and density. A zero field means
/// the engine's default is kept.
#[derive(Copy, Clone, Eq, PartialEq, Structural, Debug)]
pub struct ColliderConfig {
    pub half_extent_x: i64,
    pub half_extent_y: i64,
    pub body: BodyKind,
    pub friction_milli: i64,
    pub friction_combine_min: bool,
    pub gravity_scale: u32,
    pub density_milli: i64,
}

/// The body configuration each entity kind is spawned with: the player is a
/// frictionless dynamic 6×14 cuboid, a mob a velocity-kinematic 5×5 cuboid,
/// a chest a dense dynamic 8×8 cuboid, and anything else keeps the engine's
/// defaults. Rotation is locked for every kind.
pub fn collider_config(kind: EntityKind) -> (config: ColliderConfig)
    ensures
        config == match kind {
            EntityKind::Player => ColliderConfig {
                half_extent_x: 6000,
                half_extent_y: 14000,
                body: BodyKind::Dynamic,
                friction_milli: 0,
                friction_combine_min: true,
                gravity_scale: 1,
                density_milli: 0,
            },
            EntityKind::Mob => ColliderConfig {
                half_extent_x: 5000,
                half_extent_y: 5000,
                body: BodyKind::KinematicVelocityBased,
                friction_milli: 0,
                friction_combine_min: false,
                gravity_scale: 1,
                density_milli: 0,
            },
            EntityKind::Chest => ColliderConfig {
                half_extent_x: 8000,
                half_extent_y: 8000,
                body: BodyKind::Dynamic,
                friction_milli: 500,
                friction_combine_min: false,
                gravity_scale: 1,
                density_milli: 15000,
            },
            EntityKind::Other => ColliderConfig {
                half_extent_x: 0,
                half_extent_y: 0,
                body: BodyKind::EngineDefault,
                friction_milli: 0,
                friction_combine_min: false,
                gravity_scale: 1,
                density_milli: 0,
            },
        },
{
    match kind {
        EntityKind::Player => ColliderConfig {
            half_extent_x: 6000,
            half_extent_y: 14000,
            body: BodyKind::Dynamic,
            friction_milli: 0,
            friction_combine_min: true,
            gravity_scale: 1,
            density_milli: 0,
        },
        EntityKind::Mob => ColliderConfig {
            half_extent_x: 5000,
            half_extent_y: 5000,
            body: BodyKind::KinematicVelocityBased,
            friction_milli: 0,
            friction_combine_min: false,
            gravity_scale: 1,
            density_milli: 0,
        },
        EntityKind::Chest => ColliderConfig {
            half_extent_x: 8000,
            half_extent_y: 8000,
            body: BodyKind::Dynamic,
            friction_milli: 500,
            friction_combine_min: false,
            gravity_scale: 1,
            density_milli: 15000,
        },
        EntityKind::Other => ColliderConfig {
            half_extent_x: 0,
            half_extent_y: 0,
            body: BodyKind::EngineDefault,
            friction_milli: 0,
            friction_combine_min: false,
            gravity_scale: 1,
            density_milli: 0,
        },
    }
}

/// Health and hunger counters of one entity.
#[derive(Copy, Clone, Eq, PartialEq, Structural, Debug)]
pub struct Vitality {
    pub current: u32,
    pub max: u32,
    pub hunger: u32,
}

impl Vitality {
    /// Current health never exceeds the maximum.
    pub open spec fn wf(&self) -> bool {
        self.current <= self.max
    }

    /// A fresh entity has full health and the given hunger reserve.
    pub fn new(max: u32, hunger: u32) -> (vitality: Vitality)
        ensures
            vitality.wf(),
            vitality.current == max,
            vitality.max == max,
            vitality.hunger == hunger,
    {
        Vitality { current: max, max, hunger }
    }

    /// Lose health, saturating at zero: the simulation never sees a
    /// negative value.
    pub fn damage(&mut self, amount: u32)
        requires
            old(self).wf(),
        ensures
            final(self).wf(),
            final(self).max == old(self).max,
            final(self).hunger == old(self).hunger,
            final(self).current as int == (if old(self).current >= amount {
                old(self).current - amount
            } else {
                0int
            }),
    {
        if self.current >= amount {
            self.current = self.current - amount;
        } else {
            self.current = 0;
        }
    }

    /// Consume hunger reserve, saturating at zero.
    pub fn starve(&mut self, amount: u32)
        requires
            old(self).wf(),
        ensures
            final(self).wf(),
            final(self).max == old(self).max,
            final(self).current == old(self).current,
            final(self).hunger as int == (if old(self).hunger >= amount {
                old(self).hunger - amount
            } else {
                0int
            }),
    {
        if self.hunger >= amount {
            self.hunger = self.hunger - amount;
        } else {
            self.hunger = 0;
        }
    }

    /// An entity is dead exactly when its health reaches zero.
    pub fn is_dead(&self) -> (dead: bool)
        ensures
            dead == (self.current == 0),
    {
        self.current == 0
    }
}

} // verus!
