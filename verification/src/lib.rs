//! Line of sight on a tile grid.
//!
//! * [`scan`] walks the cells within a radius of an origin, octant by octant,
//!   and gives each the angles under which it is seen.
//! * [`shadowcasting`] turns the scan into a visible or hidden flag per cell
//!   by restrictive precise angle shadowcasting; [`partial`] does the same
//!   with cells that only dim what lies behind them. [`occlusion`] and
//!   [`agreement`] hold what is proved of both.
//! * [`map`] is the grid map that the shadows fall on: tiles, coordinates,
//!   and what is blocked, seen and occupied. [`rect`] and [`dungeon`] dig
//!   rooms and tunnels into it.
//! * [`components`] holds what an agent carries, [`visibility_system`]
//!   refreshes what it sees, and [`map_system`], [`player`] and
//!   [`state_manager_system`] are the other steps of a turn.
//!
//! All geometry is exact: angles are fractions of whole numbers and the circle
//! is cut by comparing squares of whole numbers, so every result is a function
//! of the inputs alone and the same on every machine.

pub mod agreement;
pub mod angle;
pub mod components;
pub mod dungeon;
pub mod map;
pub mod map_system;
pub mod occlusion;
pub mod partial;
pub mod player;
pub mod rect;
pub mod scan;
pub mod shadowcasting;
pub mod state_manager_system;
pub mod visibility_system;
