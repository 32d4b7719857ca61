//! Moving the player over the map.

use crate::components::{Position, Viewshed, ViewshedView};
use crate::map::GridMap;
use vstd::prelude::*;

verus! {

/// Moves `position` by `delta_xy` unless the cell it would reach is blocked,
/// and tells whether it moved. The cell aimed at lies on the grid.
pub fn try_move_player(map_data: &GridMap, position: &mut Position, delta_xy: (i32, i32)) -> (moved:
    bool)
    requires
        map_data.wf(),
        map_data@.in_bounds(old(position).x + delta_xy.0, old(position).y + delta_xy.1),
    ensures
        moved == !map_data@.blocked[map_data@.index_of(
            old(position).x + delta_xy.0,
            old(position).y + delta_xy.1,
        )],
        moved ==> final(position).x == old(position).x + delta_xy.0 && final(position).y == old(
            position,
        ).y + delta_xy.1,
        !moved ==> *final(position) == *old(position),
{
    let new_x: i64 = position.x as i64 + delta_xy.0 as i64;
    let new_y: i64 = position.y as i64 + delta_xy.1 as i64;
    if !map_data.is_blocked(new_x as i32, new_y as i32) {
        position.x = new_x as i32;
        position.y = new_y as i32;
        true
    } else {
        false
    }
}

/// One step of the player in the direction `delta_xy`: the player moves if
/// the cell aimed at is free, and whoever has moved must look again, so the
/// viewshed is marked stale. Tells whether the player moved.
pub fn character_movement(
    map_data: &GridMap,
    position: &mut Position,
    viewshed: &mut Viewshed,
    delta_xy: (i32, i32),
) -> (moved: bool)
    requires
        map_data.wf(),
        map_data@.in_bounds(old(position).x + delta_xy.0, old(position).y + delta_xy.1),
    ensures
        moved == !map_data@.blocked[map_data@.index_of(
            old(position).x + delta_xy.0,
            old(position).y + delta_xy.1,
        )],
        moved ==> final(position).x == old(position).x + delta_xy.0 && final(position).y == old(
            position,
        ).y + delta_xy.1,
        !moved ==> *final(position) == *old(position),
        moved ==> final(viewshed)@ == (ViewshedView { dirty: true, ..old(viewshed)@ }),
        !moved ==> final(viewshed)@ == old(viewshed)@,
{
    let moved: bool = try_move_player(map_data, position, delta_xy);
    if moved {
        viewshed.mark_dirty();
    }
    moved
}

} // verus!
