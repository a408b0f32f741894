//! Level activation: which level is authoritative for the simulation.
//!
//! The tracked entity's position is tested against each loaded level's
//! world-space bounds, strictly inside on all four sides. A level that
//! contains the position and is not already selected becomes the selection;
//! later levels in the list are tested against the updated selection, so
//! with overlapping bounds the last containing level wins, as the scan
//! order dictates.

use vstd::prelude::*;

use crate::locomotion::{Vec2, COORD_LIMIT};

verus! {

/// World-space bounds of one loaded level, in milli-units: lower-left
/// corner and size.
#[derive(Clone, Copy, PartialEq, Eq, Structural, Debug)]
pub struct LevelBounds {
    pub id: u64,
    pub x: i64,
    pub y: i64,
    pub width: i64,
    pub height: i64,
}

/// Every level's corner and size are in the sum-safe range.
pub open spec fn levels_wf(levels: Seq<LevelBounds>) -> bool {
    forall|i: int| 0 <= i < levels.len() ==> {
        let lv = #[trigger] levels[i];
        -COORD_LIMIT <= lv.x <= COORD_LIMIT && -COORD_LIMIT <= lv.y <= COORD_LIMIT && 0 <= lv.width
            <= COORD_LIMIT && 0 <= lv.height <= COORD_LIMIT
    }
}

/// The position lies strictly inside the level's bounds.
pub open spec fn spec_level_contains(level: LevelBounds, position: Vec2) -> bool {
    &&& level.x < position.x < level.x + level.width
    &&& level.y < position.y < level.y + level.height
}

/// The selection after scanning levels from index `i` on: a containing
/// level that is not the current selection replaces it.
pub open spec fn spec_select_level(
    levels: Seq<LevelBounds>,
    selected: u64,
    position: Vec2,
    i: int,
) -> u64
    decreases levels.len() - i,
{
    if i < 0 || i >= levels.len() {
        selected
    } else {
        let next = if spec_level_contains(levels[i], position) && selected != levels[i].id {
            levels[i].id
        } else {
            selected
        };
        spec_select_level(levels, next, position, i + 1)
    }
}

/// Whether the position lies strictly inside the level.
pub fn level_contains(level: &LevelBounds, position: Vec2) -> (inside: bool)
    requires
        -COORD_LIMIT <= level.x <= COORD_LIMIT,
        -COORD_LIMIT <= level.y <= COORD_LIMIT,
        0 <= level.width <= COORD_LIMIT,
        0 <= level.height <= COORD_LIMIT,
    ensures
        inside == spec_level_contains(*level, position),
{
    level.x < position.x && position.x < level.x + level.width && level.y < position.y
        && position.y < level.y + level.height
}

/// Re-evaluate the level selection for the tracked entity's position.
pub fn update_level_selection(levels: &Vec<LevelBounds>, selected: u64, position: Vec2) -> (new_selection: u64)
    requires
        levels_wf(levels@),
    ensures
        new_selection == spec_select_level(levels@, selected, position, 0),
{
    let mut current: u64 = selected;
    let mut i: usize = 0;
    while i < levels.len()
        invariant
            0 <= i <= levels@.len(),
            levels_wf(levels@),
            spec_select_level(levels@, current, position, i as int) == spec_select_level(
                levels@,
                selected,
                position,
                0,
            ),
        decreases levels@.len() - i,
    {
        let level = levels[i];
        if level_contains(&level, position) && current != level.id {
            current = level.id;
        }
        i = i + 1;
    }
    current
}

} // verus!
