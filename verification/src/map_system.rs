//! The passes over the whole map that run once per tick: entering the
//! occupants, and choosing how each cell is drawn.

use crate::components::Occupant;
use crate::map::{GridMap, TileType};
use vstd::prelude::*;

verus! {

/// Rebuilds what the map knows of its occupants from scratch: cells are
/// blocked where walls stand, every list of occupants is emptied, and then
/// each occupant is entered in turn. Each occupant stands on the grid.
pub fn map_indexing(map: &mut GridMap, occupants: &Vec<Occupant>)
    requires
        old(map).wf(),
        forall|k: int|
            0 <= k < occupants@.len() ==> old(map)@.in_bounds(
                (#[trigger] occupants@[k]).position.x as int,
                occupants@[k].position.y as int,
            ),
    ensures
        final(map).wf(),
        final(map)@ == old(map)@.settled(occupants@, occupants@.len() as int),
{
    map.populate_blocked();
    map.clear_content_index();
    let mut n: usize = 0;
    while n < occupants.len()
        invariant
            n <= occupants@.len(),
            map.wf(),
            map@.width == old(map)@.width,
            map@.height == old(map)@.height,
            forall|k: int|
                0 <= k < occupants@.len() ==> old(map)@.in_bounds(
                    (#[trigger] occupants@[k]).position.x as int,
                    occupants@[k].position.y as int,
                ),
            map@ == old(map)@.settled(occupants@, n as int),
        decreases occupants@.len() - n,
    {
        let occupant: Occupant = occupants[n];
        assert(occupant == occupants@[n as int]);
        if occupant.blocks {
            map.mark_blocking(occupant.position.x, occupant.position.y);
        }
        map.add_occupant(occupant.position.x, occupant.position.y, occupant.id);
        n = n + 1;
    }
}

/// Colour channels are measured in parts of this.
pub const FULL_CHANNEL: u32 = 10_000;

/// Weight of red in the brightness of a colour, in parts of `FULL_CHANNEL`.
pub const LUMINANCE_RED: u32 = 2_126;

/// Weight of green in the brightness of a colour.
pub const LUMINANCE_GREEN: u32 = 7_152;

/// Weight of blue in the brightness of a colour.
pub const LUMINANCE_BLUE: u32 = 722;

/// A colour by its linear red, green and blue, each in parts of
/// `FULL_CHANNEL`.
#[derive(PartialEq, Eq, Structural, Copy, Clone, Debug)]
pub struct Tint {
    pub red: u32,
    pub green: u32,
    pub blue: u32,
}

/// How a cell is drawn: the glyph and its colour.
#[derive(PartialEq, Eq, Structural, Copy, Clone, Debug)]
pub struct TileLook {
    pub glyph: char,
    pub tint: Tint,
}

/// The brightness of a colour: `0.2126 R + 0.7152 G + 0.0722 B`, rounded
/// down to a whole part of `FULL_CHANNEL`.
pub open spec fn luminance_of(tint: Tint) -> int {
    (LUMINANCE_RED * tint.red + LUMINANCE_GREEN * tint.green + LUMINANCE_BLUE * tint.blue)
        / FULL_CHANNEL as int
}

/// The grey of the same brightness as a colour.
pub open spec fn greyed(tint: Tint) -> Tint {
    Tint {
        red: luminance_of(tint) as u32,
        green: luminance_of(tint) as u32,
        blue: luminance_of(tint) as u32,
    }
}

/// The glyph and colour of a tile in full sight.
pub open spec fn lit_look(tile: TileType) -> TileLook {
    match tile {
        TileType::Floor => TileLook { glyph: '.', tint: Tint { red: 0, green: 5_000, blue: 5_000 } },
        TileType::Wall => TileLook { glyph: '#', tint: Tint { red: 0, green: 10_000, blue: 0 } },
    }
}

/// How a tile is drawn: as in full sight while the player sees it, and in the
/// grey of the same brightness once it is only remembered.
pub open spec fn look_of(tile: TileType, visible: bool) -> TileLook {
    if visible {
        lit_look(tile)
    } else {
        TileLook { glyph: lit_look(tile).glyph, tint: greyed(lit_look(tile).tint) }
    }
}

/// The brightness of a colour whose channels do not exceed `FULL_CHANNEL`.
pub fn luminance(tint: Tint) -> (grey: u32)
    requires
        tint.red <= FULL_CHANNEL,
        tint.green <= FULL_CHANNEL,
        tint.blue <= FULL_CHANNEL,
    ensures
        grey == luminance_of(tint),
        grey <= FULL_CHANNEL,
{
    assert(LUMINANCE_RED * tint.red <= 2_126 * 10_000 && LUMINANCE_GREEN * tint.green <= 7_152
        * 10_000 && LUMINANCE_BLUE * tint.blue <= 722 * 10_000) by (nonlinear_arith)
        requires
            LUMINANCE_RED == 2_126,
            LUMINANCE_GREEN == 7_152,
            LUMINANCE_BLUE == 722,
            tint.red <= 10_000,
            tint.green <= 10_000,
            tint.blue <= 10_000,
    ;
    let red: u64 = (LUMINANCE_RED as u64) * (tint.red as u64);
    let green: u64 = (LUMINANCE_GREEN as u64) * (tint.green as u64);
    let blue: u64 = (LUMINANCE_BLUE as u64) * (tint.blue as u64);
    let weighted: u64 = red + green + blue;
    assert(weighted <= 100_000_000);
    assert(weighted / 10_000 <= 10_000);
    (weighted / (FULL_CHANNEL as u64)) as u32
}

/// How the cell with index `idx` is to be drawn, or `None` while the player
/// has never seen it.
pub fn draw_map(map: &GridMap, idx: usize) -> (look: Option<TileLook>)
    requires
        map.wf(),
        idx < map@.cells(),
    ensures
        look == if map@.revealed[idx as int] {
            Some(look_of(map@.tiles[idx as int], map@.visible[idx as int]))
        } else {
            None
        },
{
    let (x, y) = map.idx_xy(idx);
    if map.is_revealed(x, y) {
        let (glyph, mut tint): (char, Tint) = match map.tile_at(x, y) {
            TileType::Floor => ('.', Tint { red: 0, green: 5_000, blue: 5_000 }),
            TileType::Wall => ('#', Tint { red: 0, green: 10_000, blue: 0 }),
        };
        if !map.is_visible(x, y) {
            let grey: u32 = luminance(tint);
            tint = Tint { red: grey, green: grey, blue: grey };
        }
        Some(TileLook { glyph, tint })
    } else {
        None
    }
}

} // verus!
