//! Refreshing what an agent sees: a stale viewshed is computed anew by
//! shadowcasting over the map's walls, and the player's view is written to
//! the map.

use crate::components::{Position, Viewshed, ViewshedView};
use crate::map::{GridMap, GridView};
use crate::shadowcasting::{Obstruction, RPAShadowcasting};
use vstd::prelude::*;

verus! {

/// The walls of a map as seen from a place on it: the cell at an offset is
/// opaque where a wall stands at that offset from the place. Beyond the grid
/// nothing is opaque.
pub struct MapSight<'a> {
    map: &'a GridMap,
    x: i32,
    y: i32,
}

/// Where the walls are around `(x, y)`, as a function of the offset.
pub open spec fn walls_around(map: GridView, x: int, y: int) -> spec_fn(int, int) -> bool {
    |dx: int, dy: int| map.wall_at(x + dx, y + dy)
}

impl<'a> MapSight<'a> {
    #[verifier::type_invariant]
    spec fn inv(self) -> bool {
        self.map.wf()
    }

    /// The map that is looked at.
    pub closed spec fn map(self) -> GridView {
        self.map@
    }

    /// The place from which it is looked at.
    pub closed spec fn origin(self) -> (int, int) {
        (self.x as int, self.y as int)
    }

    /// The walls of `map` as seen from `(x, y)`.
    pub fn new(map: &'a GridMap, x: i32, y: i32) -> (sight: Self)
        requires
            map.wf(),
        ensures
            sight.map() == map@,
            sight.origin() == (x as int, y as int),
    {
        MapSight { map, x, y }
    }
}

impl<'a> Obstruction for MapSight<'a> {
    open spec fn opaque(&self, dx: int, dy: int) -> bool {
        self.map().wall_at(self.origin().0 + dx, self.origin().1 + dy)
    }

    fn obstructs(&self, dx: i32, dy: i32) -> (b: bool) {
        proof {
            use_type_invariant(self);
        }
        self.map.is_wall(self.x as i64 + dx as i64, self.y as i64 + dy as i64)
    }
}

/// The coordinates that the first `count` items of a shadowcast from `(x, y)`
/// report as seen: those of the visible cells that lie in the map's window,
/// in the order of the cast.
pub open spec fn sighted(
    cast: Seq<(int, int, bool)>,
    count: int,
    map: GridView,
    x: int,
    y: int,
) -> Seq<(i32, i32)>
    decreases count,
{
    if count <= 0 || count > cast.len() {
        Seq::empty()
    } else {
        let before = sighted(cast, count - 1, map, x, y);
        let item = cast[count - 1];
        if item.2 && map.in_window(x + item.0, y + item.1) {
            before.push(((x + item.0) as i32, (y + item.1) as i32))
        } else {
            before
        }
    }
}

/// What an agent at `(x, y)` with the given range sees on the map: the
/// visible cells of the shadowcast over the map's walls, as coordinates on the
/// map, without those outside the map's window.
pub open spec fn visible_from(map: GridView, range: int, x: int, y: int) -> Seq<(i32, i32)> {
    let cast = crate::shadowcasting::shadowcast(range, walls_around(map, x, y));
    sighted(cast, cast.len() as int, map, x, y)
}

/// Everything reported as seen lies in the map's window, and so on the grid.
pub proof fn lemma_sighted_in_window(
    cast: Seq<(int, int, bool)>,
    count: int,
    map: GridView,
    x: int,
    y: int,
)
    requires
        map.wf(),
    ensures
        forall|k: int|
            0 <= k < sighted(cast, count, map, x, y).len() ==> {
                let tile = #[trigger] sighted(cast, count, map, x, y)[k];
                map.in_window(tile.0 as int, tile.1 as int) && map.in_bounds(
                    tile.0 as int,
                    tile.1 as int,
                )
            },
    decreases count,
{
    if count <= 0 || count > cast.len() {
    } else {
        lemma_sighted_in_window(cast, count - 1, map, x, y);
        let before = sighted(cast, count - 1, map, x, y);
        let all = sighted(cast, count, map, x, y);
        assert forall|k: int| 0 <= k < all.len() implies map.in_window(
            (#[trigger] all[k]).0 as int,
            all[k].1 as int,
        ) && map.in_bounds(all[k].0 as int, all[k].1 as int) by {
            if k < before.len() {
                assert(all[k] == before[k]);
            }
        }
    }
}

/// Computes what an agent at `position` with the given range sees on the map.
pub fn compute_visible(map: &GridMap, range: i32, position: Position) -> (tiles: Vec<(i32, i32)>)
    requires
        map.wf(),
        0 <= range,
    ensures
        tiles@ == visible_from(map@, range as int, position.x as int, position.y as int),
{
    let sight = MapSight::new(map, position.x, position.y);
    let mut caster = RPAShadowcasting::new(range, sight);
    let ghost walls = walls_around(map@, position.x as int, position.y as int);
    let ghost cast = crate::shadowcasting::shadowcast(range as int, walls);
    assert(crate::shadowcasting::opaque_cells(sight) =~= walls);
    let ghost mut done: int = 0;
    let mut tiles: Vec<(i32, i32)> = Vec::new();
    loop
        invariant
            map.wf(),
            caster.wf(),
            0 <= done <= cast.len(),
            caster.remaining() == cast.skip(done),
            tiles@ == sighted(cast, done, map@, position.x as int, position.y as int),
        ensures
            done == cast.len(),
            tiles@ == sighted(cast, done, map@, position.x as int, position.y as int),
        decreases cast.len() - done,
    {
        match caster.next() {
            None => {
                break ;
            },
            Some((rel_x, rel_y, visible)) => {
                proof {
                    assert(cast.skip(done)[0] == cast[done]);
                    assert(cast.skip(done).skip(1) =~= cast.skip(done + 1));
                    done = done + 1;
                }
                let x: i64 = position.x as i64 + rel_x as i64;
                let y: i64 = position.y as i64 + rel_y as i64;
                if visible && map.in_window(x, y) {
                    tiles.push((x as i32, y as i32));
                }
            },
        }
    }
    tiles
}

/// Refreshes the viewshed of the agent at `position`, if it is stale: what
/// the agent sees is computed anew and replaces the old list, and the
/// viewshed becomes fresh. For the player, the map's visible cells are set to
/// exactly what is seen now, and those cells are revealed. A fresh viewshed is
/// left as it is, and so is the map.
pub fn visibility(map: &mut GridMap, viewshed: &mut Viewshed, position: Position, player: bool)
    requires
        old(map).wf(),
        old(viewshed).wf(),
    ensures
        final(map).wf(),
        final(viewshed).wf(),
        !old(viewshed)@.dirty ==> final(viewshed)@ == old(viewshed)@ && final(map)@ == old(map)@,
        old(viewshed)@.dirty ==> final(viewshed)@ == (ViewshedView {
            visible_tiles: visible_from(
                old(map)@,
                old(viewshed)@.range,
                position.x as int,
                position.y as int,
            ),
            dirty: false,
            ..old(viewshed)@
        }),
        old(viewshed)@.dirty && player ==> final(map)@ == old(map)@.lit_by(
            final(viewshed)@.visible_tiles,
        ),
        old(viewshed)@.dirty && !player ==> final(map)@ == old(map)@,
        forall|i: int|
            0 <= i < old(map)@.cells() && old(map)@.revealed[i] ==> final(map)@.revealed[i],
{
    if viewshed.is_dirty() {
        let tiles = compute_visible(map, viewshed.range(), position);
        proof {
            let cast = crate::shadowcasting::shadowcast(
                viewshed@.range,
                walls_around(map@, position.x as int, position.y as int),
            );
            lemma_sighted_in_window(
                cast,
                cast.len() as int,
                map@,
                position.x as int,
                position.y as int,
            );
        }
        if player {
            map.set_visible_tiles(&tiles);
        }
        viewshed.replace(tiles);
    }
}

} // verus!
