//! Simulation core of a 2D tile-based platformer.
//!
//! The crate covers the per-frame gameplay logic of the game:
//!
//! * [`grid`] — the per-level index of occupied wall cells;
//! * [`consolidate`] — merging of wall cells into a minimal-overhead set of
//!   axis-aligned rectangle colliders;
//! * [`sensors`] — per-entity climbable-overlap tracking and ground contact,
//!   fed by unordered overlap begin/end events;
//! * [`locomotion`] — gravity, vertical collision resolution and the
//!   per-entity locomotion state machine;
//! * [`animation`] — selection and advance of the animation frame range;
//! * [`level`] — which level is authoritative for the simulation;
//! * [`entities`] — marker components, body configuration and vitality;
//! * [`frame`] — one entity's whole frame in the fixed system order:
//!   sensors, then locomotion, then animation.
//!
//! All coordinates and velocities that the engine keeps as floating-point
//! world units appear here in milli-units (one thousandth of a world unit),
//! so every quantity is an integer and every rule is provable.

pub mod grid;
pub mod consolidate;
pub mod sensors;
pub mod locomotion;
pub mod animation;
pub mod level;
pub mod entities;
pub mod frame;

use vstd::prelude::*;

verus! {

/// A unit grid coordinate marking a wall tile.
#[derive(Clone, Copy, PartialEq, Eq, Structural, Debug, Hash)]
pub struct Cell {
    pub x: i32,
    pub y: i32,
}

impl View for Cell {
    type V = (int, int);

    open spec fn view(&self) -> (int, int) {
        (self.x as int, self.y as int)
    }
}

} // verus!
