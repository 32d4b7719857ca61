//! The grid map: tiles, the mapping between coordinates and indices, and the
//! per-cell state derived from tiles and occupants.
//!
//! The grid is centred on coordinate `(0, 0)`: a map of width `w` and height
//! `h` covers `x` from `-(w / 2)` and `y` from `-(h / 2)`, `w` columns and `h`
//! rows of them.

use crate::rect::Rect;
use vstd::prelude::*;

verus! {

/// Width of the map that `GridMap::default` builds.
pub const ARENA_WIDTH: i32 = 80;

/// Height of the map that `GridMap::default` builds.
pub const ARENA_HEIGHT: i32 = 50;

/// What a cell of the map is made of.
#[derive(PartialEq, Eq, Structural, Copy, Clone, Debug)]
pub enum TileType {
    Floor,
    Wall,
}

/// Identifies an occupant of a cell.
pub type OccupantId = u64;

/// Why a map could not be made.
#[derive(PartialEq, Eq, Structural, Copy, Clone, Debug)]
pub enum MapError {
    /// Width or height is zero or negative.
    Empty,
}

/// A map as a mathematical value: its size and, for every cell by index, the
/// tile, the three flags and the occupants in the order they were added.
pub struct GridView {
    pub width: int,
    pub height: int,
    pub tiles: Seq<TileType>,
    pub rooms: Seq<Rect>,
    pub blocked: Seq<bool>,
    pub revealed: Seq<bool>,
    pub visible: Seq<bool>,
    pub content: Seq<Seq<OccupantId>>,
}

impl GridView {
    /// Number of cells.
    pub open spec fn cells(self) -> int {
        self.width * self.height
    }

    /// Positive size, and one entry per cell in each array.
    pub open spec fn wf(self) -> bool {
        &&& 0 < self.width <= i32::MAX
        &&& 0 < self.height <= i32::MAX
        &&& self.tiles.len() == self.cells()
        &&& self.blocked.len() == self.cells()
        &&& self.revealed.len() == self.cells()
        &&& self.visible.len() == self.cells()
        &&& self.content.len() == self.cells()
        &&& self.seen_consistent()
    }

    /// What the player sees now has been revealed.
    pub open spec fn seen_consistent(self) -> bool {
        forall|i: int| 0 <= i < self.cells() && self.visible[i] ==> self.revealed[i]
    }

    /// Whether `(x, y)` lies in the window of coordinates that are reported as
    /// seen: `-(w / 2) ..= w / 2 - 1` by `-(h / 2) ..= h / 2 - 1`. On a map of
    /// even size this is the whole grid.
    pub open spec fn in_window(self, x: int, y: int) -> bool {
        &&& -(self.width / 2) <= x <= self.width / 2 - 1
        &&& -(self.height / 2) <= y <= self.height / 2 - 1
    }

    /// Whether one of `tiles` is the cell with index `idx`.
    pub open spec fn lists(self, tiles: Seq<(i32, i32)>, idx: int) -> bool {
        exists|k: int| 0 <= k < tiles.len() && self.index_of(tiles[k].0 as int, tiles[k].1 as int) == idx
    }

    /// The map after the player has seen exactly `tiles`: those cells are
    /// visible and no others, and they are revealed along with all that was
    /// revealed before.
    pub open spec fn lit_by(self, tiles: Seq<(i32, i32)>) -> GridView {
        GridView {
            visible: Seq::new(self.cells() as nat, |i: int| self.lists(tiles, i)),
            revealed: Seq::new(
                self.cells() as nat,
                |i: int| self.revealed[i] || self.lists(tiles, i),
            ),
            ..self
        }
    }

    /// Whether `(x, y)` is a cell of the grid.
    pub open spec fn in_bounds(self, x: int, y: int) -> bool {
        &&& -(self.width / 2) <= x < self.width - self.width / 2
        &&& -(self.height / 2) <= y < self.height - self.height / 2
    }

    /// The index of the cell `(x, y)`: rows one after the other, each from its
    /// smallest `x` on.
    pub open spec fn index_of(self, x: int, y: int) -> int {
        (y + self.height / 2) * self.width + (x + self.width / 2)
    }

    /// The coordinates of the cell with index `idx`.
    pub open spec fn coordinate_of(self, idx: int) -> (int, int) {
        (idx % self.width - self.width / 2, idx / self.width - self.height / 2)
    }

    /// The map with `blocked` set to where the walls are.
    pub open spec fn blocked_by_walls(self) -> GridView {
        GridView {
            blocked: Seq::new(self.cells() as nat, |i: int| self.tiles[i] == TileType::Wall),
            ..self
        }
    }

    /// The map with no occupant in any cell.
    pub open spec fn vacated(self) -> GridView {
        GridView {
            content: Seq::new(self.cells() as nat, |i: int| Seq::<OccupantId>::empty()),
            ..self
        }
    }

    /// The map with the cell `(x, y)` blocked.
    pub open spec fn with_blocking(self, x: int, y: int) -> GridView {
        GridView { blocked: self.blocked.update(self.index_of(x, y), true), ..self }
    }

    /// The map with one more occupant in the cell `(x, y)`, behind those that
    /// are there.
    pub open spec fn with_occupant(self, x: int, y: int, id: OccupantId) -> GridView {
        let idx = self.index_of(x, y);
        GridView { content: self.content.update(idx, self.content[idx].push(id)), ..self }
    }

    /// Whether the floor of `room` lies on the grid.
    pub open spec fn holds_room(self, room: Rect) -> bool {
        room.x1 < room.x2 && room.y1 < room.y2 ==> self.in_bounds(room.x1 + 1, room.y1 + 1)
            && self.in_bounds(room.x2 as int, room.y2 as int)
    }

    /// The map with floor wherever `dug` says so, by index.
    pub open spec fn dug_out(self, dug: spec_fn(int) -> bool) -> GridView {
        GridView {
            tiles: Seq::new(
                self.cells() as nat,
                |i: int|
                    if dug(i) {
                        TileType::Floor
                    } else {
                        self.tiles[i]
                    },
            ),
            ..self
        }
    }

    /// Whether the cell with index `idx` is part of the floor of `room`.
    pub open spec fn in_room(self, room: Rect, idx: int) -> bool {
        room.covers(self.coordinate_of(idx).0, self.coordinate_of(idx).1)
    }

    /// The map with the floor of `room` laid.
    pub open spec fn with_room(self, room: Rect) -> GridView {
        self.dug_out(|i: int| self.in_room(room, i))
    }

    /// Whether a tunnel along the row `y` between the columns `x1` and `x2`,
    /// in either order, passes through the index `idx`. The index is taken
    /// from the row and column as they are, so a tunnel that leaves the grid
    /// at one side runs on at the other; index 0 is never part of a tunnel.
    pub open spec fn in_horizontal_tunnel(self, x1: int, x2: int, y: int, idx: int) -> bool {
        let x = idx - self.index_of(0, y);
        0 < idx && (x1 <= x <= x2 || x2 <= x <= x1)
    }

    /// Whether a tunnel along the column `x` between the rows `y1` and `y2`,
    /// in either order, passes through the index `idx`.
    pub open spec fn in_vertical_tunnel(self, y1: int, y2: int, x: int, idx: int) -> bool {
        0 < idx && exists|y: int|
            (y1 <= y <= y2 || y2 <= y <= y1) && #[trigger] self.index_of(x, y) == idx
    }

    /// The map with a tunnel dug along the row `y` between the columns `x1`
    /// and `x2`.
    pub open spec fn with_horizontal_tunnel(self, x1: int, x2: int, y: int) -> GridView {
        self.dug_out(|i: int| self.in_horizontal_tunnel(x1, x2, y, i))
    }

    /// The map with a tunnel dug along the column `x` between the rows `y1`
    /// and `y2`.
    pub open spec fn with_vertical_tunnel(self, y1: int, y2: int, x: int) -> GridView {
        self.dug_out(|i: int| self.in_vertical_tunnel(y1, y2, x, i))
    }

    /// The map after one more occupant has been entered: it is added to its
    /// cell, and the cell is blocked if the occupant blocks.
    pub open spec fn with_entry(self, occupant: crate::components::Occupant) -> GridView {
        let x = occupant.position.x as int;
        let y = occupant.position.y as int;
        let marked = if occupant.blocks {
            self.with_blocking(x, y)
        } else {
            self
        };
        marked.with_occupant(x, y, occupant.id)
    }

    /// The map after the first `count` of `occupants` have been entered in
    /// turn, starting from the tiles alone: blocked where the walls are, and
    /// empty.
    pub open spec fn settled(
        self,
        occupants: Seq<crate::components::Occupant>,
        count: int,
    ) -> GridView
        decreases count,
    {
        if count <= 0 {
            self.blocked_by_walls().vacated()
        } else {
            self.settled(occupants, count - 1).with_entry(occupants[count - 1])
        }
    }

    /// Whether a wall stands at `(x, y)`. Outside the grid stands nothing.
    pub open spec fn wall_at(self, x: int, y: int) -> bool {
        self.in_bounds(x, y) && self.tiles[self.index_of(x, y)] == TileType::Wall
    }
}

/// Every cell of the grid has an index below the number of cells.
pub proof fn lemma_index_in_range(map: GridView, x: int, y: int)
    requires
        map.width > 0,
        map.height > 0,
        map.in_bounds(x, y),
    ensures
        0 <= map.index_of(x, y) < map.cells(),
{
    let row = y + map.height / 2;
    let col = x + map.width / 2;
    assert(0 <= row * map.width && row * map.width + map.width <= map.height * map.width)
        by (nonlinear_arith)
        requires
            0 <= row < map.height,
            0 < map.width,
    ;
}

/// Coordinates and indices correspond one to one: the cell found at the index
/// of `(x, y)` is `(x, y)` again.
pub proof fn lemma_coordinate_of_index(map: GridView, x: int, y: int)
    requires
        map.width > 0,
        map.height > 0,
        map.in_bounds(x, y),
    ensures
        map.coordinate_of(map.index_of(x, y)) == (x, y),
{
    let row = y + map.height / 2;
    let col = x + map.width / 2;
    vstd::arithmetic::div_mod::lemma_fundamental_div_mod_converse(
        row * map.width + col,
        map.width,
        row,
        col,
    );
    assert(row * map.width == map.width * row) by (nonlinear_arith);
}

/// Every index below the number of cells is the index of the cell whose
/// coordinates it gives, and that cell lies in the grid.
pub proof fn lemma_index_of_coordinate(map: GridView, idx: int)
    requires
        map.width > 0,
        map.height > 0,
        0 <= idx < map.cells(),
    ensures
        map.in_bounds(map.coordinate_of(idx).0, map.coordinate_of(idx).1),
        map.index_of(map.coordinate_of(idx).0, map.coordinate_of(idx).1) == idx,
{
    let row = idx / map.width;
    let col = idx % map.width;
    vstd::arithmetic::div_mod::lemma_fundamental_div_mod(idx, map.width);
    vstd::arithmetic::div_mod::lemma_mod_bound(idx, map.width);
    assert(row * map.width == map.width * row) by (nonlinear_arith);
    assert(0 <= row < map.height) by (nonlinear_arith)
        requires
            0 <= idx < map.width * map.height,
            idx == map.width * row + col,
            0 <= col < map.width,
            0 < map.width,
    ;
}

/// After the player has looked, whatever is visible is revealed, and whatever
/// was revealed before still is.
pub proof fn lemma_lit_keeps_revealed(map: GridView, tiles: Seq<(i32, i32)>, idx: int)
    requires
        0 <= idx < map.cells(),
    ensures
        map.lit_by(tiles).visible[idx] ==> map.lit_by(tiles).revealed[idx],
        map.revealed[idx] ==> map.lit_by(tiles).revealed[idx],
        map.lit_by(tiles).visible[idx] == map.lists(tiles, idx),
{
}

/// Whether one of the first `count` occupants blocks the cell with index
/// `idx`.
pub open spec fn blocked_by_occupant(
    map: GridView,
    occupants: Seq<crate::components::Occupant>,
    count: int,
    idx: int,
) -> bool {
    exists|k: int|
        0 <= k < count && (#[trigger] occupants[k]).blocks && map.index_of(
            occupants[k].position.x as int,
            occupants[k].position.y as int,
        ) == idx
}

/// After the occupants have been entered, a cell is blocked exactly where a
/// wall stands or an occupant that blocks, and tiles, size and what has been
/// seen are as before.
pub proof fn lemma_settled(
    map: GridView,
    occupants: Seq<crate::components::Occupant>,
    count: int,
    idx: int,
)
    requires
        map.wf(),
        0 <= count <= occupants.len(),
        forall|k: int|
            0 <= k < occupants.len() ==> map.in_bounds(
                (#[trigger] occupants[k]).position.x as int,
                occupants[k].position.y as int,
            ),
        0 <= idx < map.cells(),
    ensures
        map.settled(occupants, count).wf(),
        map.settled(occupants, count).tiles == map.tiles,
        map.settled(occupants, count).rooms == map.rooms,
        map.settled(occupants, count).width == map.width,
        map.settled(occupants, count).height == map.height,
        map.settled(occupants, count).revealed == map.revealed,
        map.settled(occupants, count).visible == map.visible,
        map.settled(occupants, count).blocked[idx] == (map.tiles[idx] == TileType::Wall
            || blocked_by_occupant(map, occupants, count, idx)),
    decreases count,
{
    if count > 0 {
        lemma_settled(map, occupants, count - 1, idx);
        let last = occupants[count - 1];
        let at = map.index_of(last.position.x as int, last.position.y as int);
        lemma_index_in_range(map, last.position.x as int, last.position.y as int);
        if blocked_by_occupant(map, occupants, count - 1, idx) {
            let k = choose|k: int|
                0 <= k < count - 1 && (#[trigger] occupants[k]).blocks && map.index_of(
                    occupants[k].position.x as int,
                    occupants[k].position.y as int,
                ) == idx;
            assert(0 <= k < count && occupants[k].blocks);
        }
        if last.blocks && at == idx {
            assert(occupants[count - 1].blocks);
        }
    }
}

/// The grid map. Its arrays are changed only through its own methods, which
/// keep one entry per cell in each.
pub struct GridMap {
    tiles: Vec<TileType>,
    rooms: Vec<Rect>,
    width: i32,
    height: i32,
    revealed_tiles: Vec<bool>,
    visible_tiles: Vec<bool>,
    blocked: Vec<bool>,
    tile_content: Vec<Vec<OccupantId>>,
}

impl View for GridMap {
    type V = GridView;

    closed spec fn view(&self) -> GridView {
        GridView {
            width: self.width as int,
            height: self.height as int,
            tiles: self.tiles@,
            rooms: self.rooms@,
            blocked: self.blocked@,
            revealed: self.revealed_tiles@,
            visible: self.visible_tiles@,
            content: Seq::new(self.tile_content@.len(), |i: int| self.tile_content@[i]@),
        }
    }
}

/// A vector of `count` copies of `value`.
fn filled<T: Copy>(value: T, count: usize) -> (v: Vec<T>)
    ensures
        v@.len() == count,
        forall|i: int| 0 <= i < count ==> v@[i] == value,
{
    let mut v: Vec<T> = Vec::new();
    let mut i: usize = 0;
    while i < count
        invariant
            i <= count,
            v@.len() == i,
            forall|k: int| 0 <= k < i ==> v@[k] == value,
        decreases count - i,
    {
        v.push(value);
        i = i + 1;
    }
    v
}

/// A vector of `count` empty lists of occupants.
fn vacant(count: usize) -> (v: Vec<Vec<OccupantId>>)
    ensures
        v@.len() == count,
        forall|i: int| 0 <= i < count ==> v@[i]@ == Seq::<OccupantId>::empty(),
{
    let mut v: Vec<Vec<OccupantId>> = Vec::new();
    let mut i: usize = 0;
    while i < count
        invariant
            i <= count,
            v@.len() == i,
            forall|k: int| 0 <= k < i ==> v@[k]@ == Seq::<OccupantId>::empty(),
        decreases count - i,
    {
        v.push(Vec::new());
        i = i + 1;
    }
    v
}

impl GridMap {
    /// One entry per cell in each array, and a positive size.
    pub open spec fn wf(&self) -> bool {
        self@.wf()
    }

    /// A map of the given size with a wall in every cell, no room, nothing
    /// seen and nobody in it.
    pub open spec fn is_blank(&self, width: int, height: int) -> bool {
        &&& self.wf()
        &&& self@.rooms == Seq::<Rect>::empty()
        &&& self@.width == width
        &&& self@.height == height
        &&& forall|i: int| 0 <= i < self@.cells() ==> self@.tiles[i] == TileType::Wall
        &&& forall|i: int| 0 <= i < self@.cells() ==> !self@.blocked[i]
        &&& forall|i: int| 0 <= i < self@.cells() ==> !self@.revealed[i]
        &&& forall|i: int| 0 <= i < self@.cells() ==> !self@.visible[i]
        &&& forall|i: int| 0 <= i < self@.cells() ==> self@.content[i] == Seq::<OccupantId>::empty()
    }

    /// The blank map of `cells` cells.
    fn blank(width: i32, height: i32, cells: usize) -> (map: GridMap)
        requires
            0 < width,
            0 < height,
            cells == width * height,
        ensures
            map.is_blank(width as int, height as int),
    {
        GridMap {
            tiles: filled(TileType::Wall, cells),
            rooms: Vec::new(),
            width,
            height,
            revealed_tiles: filled(false, cells),
            visible_tiles: filled(false, cells),
            blocked: filled(false, cells),
            tile_content: vacant(cells),
        }
    }

    /// A map of `width` by `height` cells, all of them walls. A map without
    /// cells is refused. The number of cells must be one that the machine can
    /// address.
    pub fn new(width: i32, height: i32) -> (made: Result<GridMap, MapError>)
        requires
            0 < width && 0 < height ==> width * height <= usize::MAX,
        ensures
            width <= 0 || height <= 0 ==> made == Err::<GridMap, MapError>(MapError::Empty),
            0 < width && 0 < height ==> made is Ok && made->Ok_0.is_blank(
                width as int,
                height as int,
            ),
    {
        if width <= 0 || height <= 0 {
            return Err(MapError::Empty);
        }
        assert(0 < width * height <= 0x7fff_ffff * 0x7fff_ffff) by (nonlinear_arith)
            requires
                0 < width <= 0x7fff_ffff,
                0 < height <= 0x7fff_ffff,
        ;
        let cells: u64 = (width as u64) * (height as u64);
        Ok(GridMap::blank(width, height, cells as usize))
    }

    /// Number of columns.
    pub fn width(&self) -> (w: i32)
        ensures
            w == self@.width,
    {
        self.width
    }

    /// Number of rows.
    pub fn height(&self) -> (h: i32)
        ensures
            h == self@.height,
    {
        self.height
    }

    /// Whether `(x, y)` is a cell of the grid.
    pub fn in_bounds(&self, x: i32, y: i32) -> (b: bool)
        requires
            self.wf(),
        ensures
            b == self@.in_bounds(x as int, y as int),
    {
        let left: i32 = -(self.width / 2);
        let low: i32 = -(self.height / 2);
        left <= x && x < left + self.width && low <= y && y < low + self.height
    }

    /// The index of the cell `(x, y)`, which must be a cell of the grid.
    pub fn xy_idx(&self, x: i32, y: i32) -> (idx: usize)
        requires
            self.wf(),
            self@.in_bounds(x as int, y as int),
        ensures
            idx == self@.index_of(x as int, y as int),
            idx < self@.cells(),
    {
        self.index_within(x, y)
    }

    /// The index of `(x, y)`, from the size of the grid alone.
    fn index_within(&self, x: i32, y: i32) -> (idx: usize)
        requires
            0 < self.width,
            0 < self.height,
            self.width * self.height == self.tiles@.len(),
            self@.in_bounds(x as int, y as int),
        ensures
            idx == self@.index_of(x as int, y as int),
            idx < self@.cells(),
    {
        proof {
            lemma_index_in_range(self@, x as int, y as int);
            assert(self@.cells() == self.tiles.len());
        }
        let row: i64 = y as i64 + (self.height / 2) as i64;
        let col: i64 = x as i64 + (self.width / 2) as i64;
        assert(0 <= row * self.width <= 0x7fff_ffff * 0x7fff_ffff) by (nonlinear_arith)
            requires
                0 <= row < 0x7fff_ffff,
                0 < self.width <= 0x7fff_ffff,
        ;
        (row * (self.width as i64) + col) as usize
    }

    /// The coordinates of the cell with index `idx`, which must be below the
    /// number of cells. This undoes `xy_idx`.
    pub fn idx_xy(&self, idx: usize) -> (xy: (i32, i32))
        requires
            self.wf(),
            idx < self@.cells(),
        ensures
            (xy.0 as int, xy.1 as int) == self@.coordinate_of(idx as int),
            self@.in_bounds(xy.0 as int, xy.1 as int),
            self@.index_of(xy.0 as int, xy.1 as int) == idx,
    {
        proof {
            lemma_index_of_coordinate(self@, idx as int);
        }
        let width: usize = self.width as usize;
        let x: i64 = (idx % width) as i64 - (self.width / 2) as i64;
        let y: i64 = (idx / width) as i64 - (self.height / 2) as i64;
        (x as i32, y as i32)
    }

    /// The tile at `(x, y)`, a cell of the grid.
    pub fn tile_at(&self, x: i32, y: i32) -> (tile: TileType)
        requires
            self.wf(),
            self@.in_bounds(x as int, y as int),
        ensures
            tile == self@.tiles[self@.index_of(x as int, y as int)],
    {
        self.tiles[self.xy_idx(x, y)]
    }

    /// Puts `tile` at `(x, y)`, a cell of the grid. Nothing else changes.
    pub fn set_tile(&mut self, x: i32, y: i32, tile: TileType)
        requires
            old(self).wf(),
            old(self)@.in_bounds(x as int, y as int),
        ensures
            final(self).wf(),
            final(self)@ == (GridView {
                tiles: old(self)@.tiles.update(old(self)@.index_of(x as int, y as int), tile),
                ..old(self)@
            }),
    {
        let idx: usize = self.xy_idx(x, y);
        self.tiles.set(idx, tile);
        assert(self@.content =~= old(self)@.content);
    }

    /// Whether a wall stands at `(x, y)`; nothing stands outside the grid.
    pub fn is_wall(&self, x: i64, y: i64) -> (b: bool)
        requires
            self.wf(),
        ensures
            b == self@.wall_at(x as int, y as int),
    {
        if x < i32::MIN as i64 || x > i32::MAX as i64 || y < i32::MIN as i64 || y > i32::MAX as i64 {
            return false;
        }
        if !self.in_bounds(x as i32, y as i32) {
            return false;
        }
        self.tile_at(x as i32, y as i32) == TileType::Wall
    }

    /// Whether the cell `(x, y)` of the grid obstructs movement.
    pub fn is_blocked(&self, x: i32, y: i32) -> (b: bool)
        requires
            self.wf(),
            self@.in_bounds(x as int, y as int),
        ensures
            b == self@.blocked[self@.index_of(x as int, y as int)],
    {
        self.blocked[self.xy_idx(x, y)]
    }

    /// Whether the cell `(x, y)` of the grid has ever been seen by the player.
    pub fn is_revealed(&self, x: i32, y: i32) -> (b: bool)
        requires
            self.wf(),
            self@.in_bounds(x as int, y as int),
        ensures
            b == self@.revealed[self@.index_of(x as int, y as int)],
    {
        self.revealed_tiles[self.xy_idx(x, y)]
    }

    /// Whether the player sees the cell `(x, y)` of the grid now.
    pub fn is_visible(&self, x: i32, y: i32) -> (b: bool)
        requires
            self.wf(),
            self@.in_bounds(x as int, y as int),
        ensures
            b == self@.visible[self@.index_of(x as int, y as int)],
    {
        self.visible_tiles[self.xy_idx(x, y)]
    }

    /// The occupants of the cell `(x, y)` of the grid, in the order they were
    /// added.
    pub fn content_at(&self, x: i32, y: i32) -> (content: &Vec<OccupantId>)
        requires
            self.wf(),
            self@.in_bounds(x as int, y as int),
        ensures
            content@ == self@.content[self@.index_of(x as int, y as int)],
    {
        &self.tile_content[self.xy_idx(x, y)]
    }
}

impl GridMap {
    /// Sets `blocked` anew from the tiles: a cell is blocked where a wall
    /// stands, and nowhere else. Occupants that block are marked afterwards.
    pub fn populate_blocked(&mut self)
        requires
            old(self).wf(),
        ensures
            final(self).wf(),
            final(self)@ == old(self)@.blocked_by_walls(),
    {
        let count: usize = self.tiles.len();
        let mut i: usize = 0;
        while i < count
            invariant
                i <= count,
                count == self.tiles@.len(),
                self.blocked@.len() == count,
                self.tiles == old(self).tiles,
                self.width == old(self).width,
                self.rooms == old(self).rooms,
                self.height == old(self).height,
                self.revealed_tiles == old(self).revealed_tiles,
                self.visible_tiles == old(self).visible_tiles,
                self.tile_content == old(self).tile_content,
                forall|k: int| 0 <= k < i ==> self.blocked@[k] == (self.tiles@[k] == TileType::Wall),
            decreases count - i,
        {
            let wall: bool = self.tiles[i] == TileType::Wall;
            self.blocked.set(i, wall);
            i = i + 1;
        }
        assert(self@.blocked =~= old(self)@.blocked_by_walls().blocked);
        assert(self@.content =~= old(self)@.content);
    }

    /// Empties the list of occupants of every cell.
    pub fn clear_content_index(&mut self)
        requires
            old(self).wf(),
        ensures
            final(self).wf(),
            final(self)@ == old(self)@.vacated(),
    {
        let count: usize = self.tile_content.len();
        let mut i: usize = 0;
        while i < count
            invariant
                i <= count,
                count == self.tile_content@.len(),
                self.tiles == old(self).tiles,
                self.width == old(self).width,
                self.rooms == old(self).rooms,
                self.height == old(self).height,
                self.revealed_tiles == old(self).revealed_tiles,
                self.visible_tiles == old(self).visible_tiles,
                self.blocked == old(self).blocked,
                forall|k: int| 0 <= k < i ==> self.tile_content@[k]@ == Seq::<OccupantId>::empty(),
            decreases count - i,
        {
            self.tile_content[i].clear();
            i = i + 1;
        }
        assert(self@.content =~= old(self)@.vacated().content);
    }

    /// Marks the cell `(x, y)` of the grid as blocked by an occupant. Doing so
    /// twice is the same as once.
    pub fn mark_blocking(&mut self, x: i32, y: i32)
        requires
            old(self).wf(),
            old(self)@.in_bounds(x as int, y as int),
        ensures
            final(self).wf(),
            final(self)@ == old(self)@.with_blocking(x as int, y as int),
    {
        let idx: usize = self.xy_idx(x, y);
        self.blocked.set(idx, true);
        assert(self@.content =~= old(self)@.content);
    }

    /// Adds an occupant to the cell `(x, y)` of the grid, behind those that
    /// are there already.
    pub fn add_occupant(&mut self, x: i32, y: i32, id: OccupantId)
        requires
            old(self).wf(),
            old(self)@.in_bounds(x as int, y as int),
        ensures
            final(self).wf(),
            final(self)@ == old(self)@.with_occupant(x as int, y as int, id),
    {
        let idx: usize = self.xy_idx(x, y);
        self.tile_content[idx].push(id);
        assert(self@.content =~= old(self)@.with_occupant(x as int, y as int, id).content);
    }
}

impl Default for GridMap {
    /// The blank map of `ARENA_WIDTH` by `ARENA_HEIGHT` cells.
    fn default() -> (map: GridMap)
        ensures
            map.is_blank(ARENA_WIDTH as int, ARENA_HEIGHT as int),
    {
        GridMap::blank(ARENA_WIDTH, ARENA_HEIGHT, 4000)
    }
}

impl GridMap {
    /// Whether `(x, y)` lies in the window of coordinates that are reported as
    /// seen.
    pub fn in_window(&self, x: i64, y: i64) -> (b: bool)
        requires
            self.wf(),
        ensures
            b == self@.in_window(x as int, y as int),
    {
        let half_width: i64 = (self.width / 2) as i64;
        let half_height: i64 = (self.height / 2) as i64;
        -half_width <= x && x <= half_width - 1 && -half_height <= y && y <= half_height - 1
    }

    /// Makes `tiles` what the player sees: every other cell stops being
    /// visible, and the cells of `tiles` become visible and revealed. What was
    /// revealed stays revealed.
    pub fn set_visible_tiles(&mut self, tiles: &Vec<(i32, i32)>)
        requires
            old(self).wf(),
            forall|k: int|
                0 <= k < tiles@.len() ==> old(self)@.in_bounds(
                    (#[trigger] tiles@[k]).0 as int,
                    tiles@[k].1 as int,
                ),
        ensures
            final(self).wf(),
            final(self)@ == old(self)@.lit_by(tiles@),
    {
        let count: usize = self.visible_tiles.len();
        let mut i: usize = 0;
        while i < count
            invariant
                i <= count,
                count == self.visible_tiles@.len(),
                self.tiles == old(self).tiles,
                self.width == old(self).width,
                self.rooms == old(self).rooms,
                self.height == old(self).height,
                self.revealed_tiles == old(self).revealed_tiles,
                self.blocked == old(self).blocked,
                self.tile_content == old(self).tile_content,
                forall|k: int| 0 <= k < i ==> !self.visible_tiles@[k],
            decreases count - i,
        {
            self.visible_tiles.set(i, false);
            i = i + 1;
        }
        let ghost before = old(self)@;
        let mut n: usize = 0;
        while n < tiles.len()
            invariant
                n <= tiles@.len(),
                old(self).wf(),
                before == old(self)@,
                forall|k: int|
                    0 <= k < tiles@.len() ==> before.in_bounds(
                        (#[trigger] tiles@[k]).0 as int,
                        tiles@[k].1 as int,
                    ),
                self.tiles == old(self).tiles,
                self.width == old(self).width,
                self.rooms == old(self).rooms,
                self.height == old(self).height,
                self.blocked == old(self).blocked,
                self.tile_content == old(self).tile_content,
                self.visible_tiles@.len() == before.cells(),
                self.revealed_tiles@.len() == before.cells(),
                forall|i: int|
                    0 <= i < before.cells() ==> self.visible_tiles@[i] == before.lists(
                        tiles@.take(n as int),
                        i,
                    ),
                forall|i: int|
                    0 <= i < before.cells() ==> self.revealed_tiles@[i] == (before.revealed[i]
                        || before.lists(tiles@.take(n as int), i)),
            decreases tiles@.len() - n,
        {
            let (x, y): (i32, i32) = tiles[n];
            assert(tiles@[n as int] == (x, y));
            let idx: usize = self.index_within(x, y);
            let ghost revealed_before = self.revealed_tiles@;
            let ghost visible_before = self.visible_tiles@;
            self.revealed_tiles.set(idx, true);
            self.visible_tiles.set(idx, true);
            proof {
                let shorter = tiles@.take(n as int);
                let longer = tiles@.take(n as int + 1);
                assert(longer[n as int] == (x, y));
                assert forall|i: int| 0 <= i < before.cells() implies before.lists(longer, i) == (
                before.lists(shorter, i) || i == idx) by {
                    if before.lists(shorter, i) {
                        let k = choose|k: int|
                            0 <= k < shorter.len() && before.index_of(
                                shorter[k].0 as int,
                                shorter[k].1 as int,
                            ) == i;
                        assert(longer[k] == shorter[k]);
                    }
                    if before.lists(longer, i) && i != idx {
                        let k = choose|k: int|
                            0 <= k < longer.len() && before.index_of(
                                longer[k].0 as int,
                                longer[k].1 as int,
                            ) == i;
                        assert(k < n);
                        assert(longer[k] == shorter[k]);
                    }
                }
                assert forall|i: int| 0 <= i < before.cells() implies self.revealed_tiles@[i] == (
                before.revealed[i] || before.lists(longer, i)) by {
                    assert(revealed_before[i] == (before.revealed[i] || before.lists(shorter, i)));
                }
                assert forall|i: int| 0 <= i < before.cells() implies self.visible_tiles@[i]
                    == before.lists(longer, i) by {
                    assert(visible_before[i] == before.lists(shorter, i));
                }
            }
            n = n + 1;
        }
        proof {
            assert(tiles@.take(n as int) =~= tiles@);
            assert(self@.visible =~= before.lit_by(tiles@).visible);
            assert(self@.revealed =~= before.lit_by(tiles@).revealed);
            assert(self@.content =~= before.content);
        }
    }
}

impl GridMap {
    /// The rooms of the map.
    pub fn rooms(&self) -> (rooms: &Vec<Rect>)
        ensures
            rooms@ == self@.rooms,
    {
        &self.rooms
    }

    /// Notes `rooms` as the rooms of the map. The tiles are not touched.
    pub fn set_rooms(&mut self, rooms: Vec<Rect>)
        requires
            old(self).wf(),
        ensures
            final(self).wf(),
            final(self)@ == (GridView { rooms: rooms@, ..old(self)@ }),
    {
        self.rooms = rooms;
        assert(self@.content =~= old(self)@.content);
    }

    /// Lays the floor of `room`, which lies on the grid.
    pub fn apply_room(&mut self, room: &Rect)
        requires
            old(self).wf(),
            old(self)@.holds_room(*room),
        ensures
            final(self).wf(),
            final(self)@ == old(self)@.with_room(*room),
    {
        let ghost before = self@;
        if room.x1 >= room.x2 || room.y1 >= room.y2 {
            assert(self@.tiles =~= before.with_room(*room).tiles);
            return ;
        }
        let mut y: i64 = room.y1 as i64 + 1;
        while y <= room.y2 as i64
            invariant
                room.x1 < room.x2,
                room.y1 < room.y2,
                room.y1 < y <= room.y2 + 1,
                before == old(self)@,
                before.wf(),
                before.holds_room(*room),
                self.width == old(self).width,
                self.height == old(self).height,
                self.rooms == old(self).rooms,
                self.revealed_tiles == old(self).revealed_tiles,
                self.visible_tiles == old(self).visible_tiles,
                self.blocked == old(self).blocked,
                self.tile_content == old(self).tile_content,
                self.tiles@.len() == before.cells(),
                forall|i: int|
                    0 <= i < before.cells() ==> #[trigger] self.tiles@[i] == if before.in_room(
                        *room,
                        i,
                    ) && before.coordinate_of(i).1 < y {
                        TileType::Floor
                    } else {
                        before.tiles[i]
                    },
            decreases room.y2 + 1 - y,
        {
            let mut x: i64 = room.x1 as i64 + 1;
            while x <= room.x2 as i64
                invariant
                    room.x1 < room.x2,
                    room.y1 < y <= room.y2,
                    room.x1 < x <= room.x2 + 1,
                    before == old(self)@,
                    before.wf(),
                    before.holds_room(*room),
                    self.width == old(self).width,
                    self.height == old(self).height,
                    self.rooms == old(self).rooms,
                    self.revealed_tiles == old(self).revealed_tiles,
                    self.visible_tiles == old(self).visible_tiles,
                    self.blocked == old(self).blocked,
                    self.tile_content == old(self).tile_content,
                    self.tiles@.len() == before.cells(),
                    forall|i: int|
                        0 <= i < before.cells() ==> #[trigger] self.tiles@[i] == if before.in_room(
                            *room,
                            i,
                        ) && (before.coordinate_of(i).1 < y || (before.coordinate_of(i).1 == y
                            && before.coordinate_of(i).0 < x)) {
                            TileType::Floor
                        } else {
                            before.tiles[i]
                        },
                decreases room.x2 + 1 - x,
            {
                let idx: usize = self.index_within(x as i32, y as i32);
                let ghost tiles_before = self.tiles@;
                self.tiles.set(idx, TileType::Floor);
                proof {
                    lemma_coordinate_of_index(before, x as int, y as int);
                    assert forall|i: int| 0 <= i < before.cells() implies #[trigger] self.tiles@[i]
                        == if before.in_room(*room, i) && (before.coordinate_of(i).1 < y || (
                    before.coordinate_of(i).1 == y && before.coordinate_of(i).0 < x + 1)) {
                        TileType::Floor
                    } else {
                        before.tiles[i]
                    } by {
                        lemma_index_of_coordinate(before, i);
                        if i != idx {
                            assert(self.tiles@[i] == tiles_before[i]);
                        }
                    }
                }
                x = x + 1;
            }
            y = y + 1;
        }
        assert(self@.tiles =~= before.with_room(*room).tiles);
        assert(self@.content =~= before.content);
    }
}

/// The smaller and the larger of two numbers.
fn ordered(a: i32, b: i32) -> (pair: (i64, i64))
    ensures
        pair.0 <= pair.1,
        (pair.0 == a && pair.1 == b) || (pair.0 == b && pair.1 == a),
{
    if a <= b {
        (a as i64, b as i64)
    } else {
        (b as i64, a as i64)
    }
}

impl GridMap {
    /// The index that the row `y` and the column `x` give, whether or not they
    /// lie on the grid.
    fn raw_index(&self, x: i64, y: i64) -> (idx: i64)
        requires
            0 < self.width,
            0 < self.height,
            i32::MIN <= x <= i32::MAX + 1,
            i32::MIN <= y <= i32::MAX + 1,
        ensures
            idx == self@.index_of(x as int, y as int),
    {
        let row: i64 = y + (self.height / 2) as i64;
        assert(-0xc000_0000 * 0x7fff_ffff <= row * self.width <= 0xc000_0000 * 0x7fff_ffff)
            by (nonlinear_arith)
            requires
                -0xc000_0000 <= row <= 0xc000_0000,
                0 < self.width <= 0x7fff_ffff,
        ;
        row * (self.width as i64) + (x + (self.width / 2) as i64)
    }

    /// Digs a tunnel along the row `y` between the columns `x1` and `x2`, in
    /// either order: floor is laid at every index on the way that is above 0
    /// and below the number of cells.
    pub fn apply_horizontal_tunnel(&mut self, x1: i32, x2: i32, y: i32)
        requires
            old(self).wf(),
        ensures
            final(self).wf(),
            final(self)@ == old(self)@.with_horizontal_tunnel(x1 as int, x2 as int, y as int),
    {
        let ghost before = self@;
        let (low, high) = ordered(x1, x2);
        let cells: usize = self.tiles.len();
        let mut x: i64 = low;
        while x <= high
            invariant
                low <= x <= high + 1,
                i32::MIN <= low,
                high <= i32::MAX,
                (low == x1 && high == x2) || (low == x2 && high == x1),
                before == old(self)@,
                before.wf(),
                cells == before.cells(),
                self.width == old(self).width,
                self.height == old(self).height,
                self.rooms == old(self).rooms,
                self.revealed_tiles == old(self).revealed_tiles,
                self.visible_tiles == old(self).visible_tiles,
                self.blocked == old(self).blocked,
                self.tile_content == old(self).tile_content,
                self.tiles@.len() == before.cells(),
                forall|i: int|
                    0 <= i < before.cells() ==> #[trigger] self.tiles@[i] == if 0 < i && low <= i
                        - before.index_of(0, y as int) < x {
                        TileType::Floor
                    } else {
                        before.tiles[i]
                    },
            decreases high + 1 - x,
        {
            let idx: i64 = self.raw_index(x, y as i64);
            assert(idx - before.index_of(0, y as int) == x);
            if idx > 0 && (idx as u64) < cells as u64 {
                self.tiles.set(idx as usize, TileType::Floor);
            }
            x = x + 1;
        }
        assert(self@.tiles =~= before.with_horizontal_tunnel(
            x1 as int,
            x2 as int,
            y as int,
        ).tiles);
        assert(self@.content =~= before.content);
    }

    /// Digs a tunnel along the column `x` between the rows `y1` and `y2`, in
    /// either order: floor is laid at every index on the way that is above 0
    /// and below the number of cells.
    pub fn apply_vertical_tunnel(&mut self, y1: i32, y2: i32, x: i32)
        requires
            old(self).wf(),
        ensures
            final(self).wf(),
            final(self)@ == old(self)@.with_vertical_tunnel(y1 as int, y2 as int, x as int),
    {
        let ghost before = self@;
        let (low, high) = ordered(y1, y2);
        let cells: usize = self.tiles.len();
        let mut y: i64 = low;
        while y <= high
            invariant
                low <= y <= high + 1,
                i32::MIN <= low,
                high <= i32::MAX,
                (low == y1 && high == y2) || (low == y2 && high == y1),
                before == old(self)@,
                before.wf(),
                cells == before.cells(),
                self.width == old(self).width,
                self.height == old(self).height,
                self.rooms == old(self).rooms,
                self.revealed_tiles == old(self).revealed_tiles,
                self.visible_tiles == old(self).visible_tiles,
                self.blocked == old(self).blocked,
                self.tile_content == old(self).tile_content,
                self.tiles@.len() == before.cells(),
                forall|i: int|
                    0 <= i < before.cells() ==> #[trigger] self.tiles@[i] == if 0 < i && (
                    exists|row: int| low <= row < y && #[trigger] before.index_of(x as int, row) == i) {
                        TileType::Floor
                    } else {
                        before.tiles[i]
                    },
            decreases high + 1 - y,
        {
            let idx: i64 = self.raw_index(x as i64, y);
            let ghost tiles_before = self.tiles@;
            if idx > 0 && (idx as u64) < cells as u64 {
                self.tiles.set(idx as usize, TileType::Floor);
            }
            proof {
                assert forall|i: int| 0 <= i < before.cells() implies #[trigger] self.tiles@[i]
                    == if 0 < i && (exists|row: int|
                    low <= row < y + 1 && #[trigger] before.index_of(x as int, row) == i) {
                    TileType::Floor
                } else {
                    before.tiles[i]
                } by {
                    let earlier = exists|row: int|
                        low <= row < y && #[trigger] before.index_of(x as int, row) == i;
                    let now = exists|row: int|
                        low <= row < y + 1 && #[trigger] before.index_of(x as int, row) == i;
                    if earlier {
                        let row = choose|row: int|
                            low <= row < y && #[trigger] before.index_of(x as int, row) == i;
                        assert(low <= row < y + 1 && before.index_of(x as int, row) == i);
                    }
                    if i == idx {
                        assert(before.index_of(x as int, y as int) == i);
                    }
                    if now && !earlier {
                        let row = choose|row: int|
                            low <= row < y + 1 && #[trigger] before.index_of(x as int, row) == i;
                        assert(row == y);
                    }
                }
            }
            y = y + 1;
        }
        proof {
            let target = before.with_vertical_tunnel(y1 as int, y2 as int, x as int);
            assert forall|i: int| 0 <= i < before.cells() implies #[trigger] self.tiles@[i]
                == target.tiles[i] by {
                if exists|row: int|
                    low <= row < high + 1 && #[trigger] before.index_of(x as int, row) == i {
                    let row = choose|row: int|
                        low <= row < high + 1 && #[trigger] before.index_of(x as int, row) == i;
                    assert((y1 <= row <= y2 || y2 <= row <= y1) && before.index_of(x as int, row)
                        == i);
                }
                if exists|row: int|
                    (y1 <= row <= y2 || y2 <= row <= y1) && #[trigger] before.index_of(
                        x as int,
                        row,
                    ) == i {
                    let row = choose|row: int|
                        (y1 <= row <= y2 || y2 <= row <= y1) && #[trigger] before.index_of(
                            x as int,
                            row,
                        ) == i;
                    assert(low <= row < high + 1 && before.index_of(x as int, row) == i);
                }
            }
            assert(self@.tiles =~= before.with_vertical_tunnel(
                y1 as int,
                y2 as int,
                x as int,
            ).tiles);
            assert(self@.content =~= before.content);
        }
    }
}

} // verus!
