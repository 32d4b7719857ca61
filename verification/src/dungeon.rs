//! Digging a dungeon into a map: rooms at random places that keep clear of
//! each other, each joined to the one before it by a bent tunnel.

use crate::map::{GridMap, GridView, TileType};
use crate::rect::Rect;
use rand::rngs::ThreadRng;
use rand::Rng;
use vstd::prelude::*;

verus! {

/// How many rooms are tried.
pub const MAX_ROOMS: i32 = 30;

/// The smallest width and height of a room.
pub const MIN_SIZE: i32 = 6;

/// The largest width and height of a room.
pub const MAX_SIZE: i32 = 10;

/// The generator of `rand` that is local to the thread.
#[verifier::external_type_specification]
#[verifier::external_body]
pub struct ExThreadRng(ThreadRng);

/// `rand::thread_rng` hands out the thread's generator. Nothing is claimed of
/// it.
pub assume_specification[ rand::thread_rng ]() -> (rng: ThreadRng)
;

/// `Rng::gen_range` over `low..=high` on integers: some number from `low` to
/// `high`, both included. Which one is not known. The range must not be
/// empty, as `rand` panics on an empty range.
#[verifier::external_body]
fn gen_range(rng: &mut ThreadRng, low: i32, high: i32) -> (n: i32)
    requires
        low <= high,
    ensures
        low <= n <= high,
{
    rng.gen_range(low..=high)
}

/// `Rng::gen` for `bool`: one or the other. Which one is not known.
#[verifier::external_body]
fn gen_bool(rng: &mut ThreadRng) -> (b: bool) {
    rng.gen()
}

/// Whether the map is large enough for a room of any size to be placed with a
/// margin around it.
pub open spec fn roomy(map: GridView) -> bool {
    &&& -(map.width / 2) <= map.width / 2 - MAX_SIZE - 2
    &&& -(map.height / 2) <= map.height / 2 - MAX_SIZE - 2
}

/// The map with a bent tunnel from `from` to `to`: along the row of `from` and
/// then the column of `to`, or, if not `horizontal_first`, along the column of
/// `from` and then the row of `to`.
pub open spec fn with_corridor(
    map: GridView,
    from: (i32, i32),
    to: (i32, i32),
    horizontal_first: bool,
) -> GridView {
    if horizontal_first {
        map.with_horizontal_tunnel(from.0 as int, to.0 as int, from.1 as int).with_vertical_tunnel(
            from.1 as int,
            to.1 as int,
            to.0 as int,
        )
    } else {
        map.with_vertical_tunnel(from.1 as int, to.1 as int, from.0 as int).with_horizontal_tunnel(
            from.0 as int,
            to.0 as int,
            to.1 as int,
        )
    }
}

/// Digs a bent tunnel from `from` to `to`, the horizontal part first or last.
pub fn connect_rooms(map: &mut GridMap, from: (i32, i32), to: (i32, i32), horizontal_first: bool)
    requires
        old(map).wf(),
    ensures
        final(map).wf(),
        final(map)@ == with_corridor(old(map)@, from, to, horizontal_first),
{
    if horizontal_first {
        map.apply_horizontal_tunnel(from.0, to.0, from.1);
        map.apply_vertical_tunnel(from.1, to.1, to.0);
    } else {
        map.apply_vertical_tunnel(from.1, to.1, from.0);
        map.apply_horizontal_tunnel(from.0, to.0, to.1);
    }
}

/// Whether `rooms` can be the rooms of a dungeon on `map`: each lies on the
/// grid and is of an allowed size, and no two of them touch.
pub open spec fn rooms_fit(map: GridView, rooms: Seq<Rect>) -> bool {
    &&& forall|k: int|
        0 <= k < rooms.len() ==> {
            let room = #[trigger] rooms[k];
            &&& map.holds_room(room)
            &&& MIN_SIZE <= room.x2 - room.x1 <= MAX_SIZE
            &&& MIN_SIZE <= room.y2 - room.y1 <= MAX_SIZE
        }
    &&& forall|j: int, k: int|
        0 <= j < k < rooms.len() ==> !(#[trigger] rooms[k]).intersects(#[trigger] rooms[j])
}

/// Whether every cell of every one of `rooms` is floor.
pub open spec fn rooms_dug(map: GridView, rooms: Seq<Rect>) -> bool {
    forall|k: int, i: int|
        0 <= k < rooms.len() && 0 <= i < map.cells() && map.in_room(#[trigger] rooms[k], i)
            ==> #[trigger] map.tiles[i] == TileType::Floor
}

/// Whether a bent tunnel from `from` to `to` passes through the index `idx`.
pub open spec fn in_corridor(
    map: GridView,
    from: (int, int),
    to: (int, int),
    horizontal_first: bool,
    idx: int,
) -> bool {
    if horizontal_first {
        map.in_horizontal_tunnel(from.0, to.0, from.1, idx) || map.in_vertical_tunnel(
            from.1,
            to.1,
            to.0,
            idx,
        )
    } else {
        map.in_vertical_tunnel(from.1, to.1, from.0, idx) || map.in_horizontal_tunnel(
            from.0,
            to.0,
            to.1,
            idx,
        )
    }
}

/// Whether the whole of a bent tunnel from `from` to `to` is floor.
pub open spec fn corridor_dug(
    map: GridView,
    from: (int, int),
    to: (int, int),
    horizontal_first: bool,
) -> bool {
    forall|i: int|
        0 <= i < map.cells() && in_corridor(map, from, to, horizontal_first, i)
            ==> #[trigger] map.tiles[i] == TileType::Floor
}

/// Whether two rooms are joined: a bent tunnel from middle to middle, bending
/// one way or the other, is floor.
pub open spec fn joined(map: GridView, from: Rect, to: Rect) -> bool {
    corridor_dug(map, from.middle(), to.middle(), true) || corridor_dug(
        map,
        from.middle(),
        to.middle(),
        false,
    )
}

/// Whether each of `rooms` but the first is joined to the one before it.
pub open spec fn rooms_joined(map: GridView, rooms: Seq<Rect>) -> bool {
    forall|k: int| 1 <= k < rooms.len() ==> joined(map, rooms[k - 1], #[trigger] rooms[k])
}

/// Once a bent tunnel has been dug, the whole of it is floor.
pub proof fn lemma_corridor_is_dug(
    map: GridView,
    from: (i32, i32),
    to: (i32, i32),
    horizontal_first: bool,
)
    requires
        map.wf(),
    ensures
        corridor_dug(
            with_corridor(map, from, to, horizontal_first),
            (from.0 as int, from.1 as int),
            (to.0 as int, to.1 as int),
            horizontal_first,
        ),
{
    let dug = with_corridor(map, from, to, horizontal_first);
    let half_dug = if horizontal_first {
        map.with_horizontal_tunnel(from.0 as int, to.0 as int, from.1 as int)
    } else {
        map.with_vertical_tunnel(from.1 as int, to.1 as int, from.0 as int)
    };
    assert forall|i: int|
        0 <= i < dug.cells() && in_corridor(
            dug,
            (from.0 as int, from.1 as int),
            (to.0 as int, to.1 as int),
            horizontal_first,
            i,
        ) implies #[trigger] dug.tiles[i] == TileType::Floor by {
        if horizontal_first {
            if map.in_horizontal_tunnel(from.0 as int, to.0 as int, from.1 as int, i) {
                assert(half_dug.tiles[i] == TileType::Floor);
            }
            if dug.in_vertical_tunnel(from.1 as int, to.1 as int, to.0 as int, i) {
                let row = choose|row: int|
                    (from.1 <= row <= to.1 || to.1 <= row <= from.1) && #[trigger] dug.index_of(
                        to.0 as int,
                        row,
                    ) == i;
                assert(half_dug.index_of(to.0 as int, row) == i);
            }
        } else {
            if dug.in_vertical_tunnel(from.1 as int, to.1 as int, from.0 as int, i) {
                let row = choose|row: int|
                    (from.1 <= row <= to.1 || to.1 <= row <= from.1) && #[trigger] dug.index_of(
                        from.0 as int,
                        row,
                    ) == i;
                assert(map.index_of(from.0 as int, row) == i);
                assert(half_dug.tiles[i] == TileType::Floor);
            }
        }
    }
}

/// Two rooms that are joined stay joined when more floor is laid.
pub proof fn lemma_joined_stays(before: GridView, after: GridView, from: Rect, to: Rect)
    requires
        after.width == before.width,
        after.height == before.height,
        forall|i: int|
            0 <= i < before.cells() && before.tiles[i] == TileType::Floor
                ==> #[trigger] after.tiles[i] == TileType::Floor,
        joined(before, from, to),
    ensures
        joined(after, from, to),
{
    let bend = corridor_dug(before, from.middle(), to.middle(), true);
    assert forall|i: int|
        0 <= i < after.cells() && in_corridor(
            after,
            from.middle(),
            to.middle(),
            bend,
            i,
        ) implies #[trigger] after.tiles[i] == TileType::Floor by {
        if bend {
            if after.in_vertical_tunnel(from.middle().1, to.middle().1, to.middle().0, i) {
                let row = choose|row: int|
                    (from.middle().1 <= row <= to.middle().1 || to.middle().1 <= row
                        <= from.middle().1) && #[trigger] after.index_of(to.middle().0, row) == i;
                assert(before.index_of(to.middle().0, row) == i);
            }
        } else {
            if after.in_vertical_tunnel(from.middle().1, to.middle().1, from.middle().0, i) {
                let row = choose|row: int|
                    (from.middle().1 <= row <= to.middle().1 || to.middle().1 <= row
                        <= from.middle().1) && #[trigger] after.index_of(from.middle().0, row) == i;
                assert(before.index_of(from.middle().0, row) == i);
            }
        }
        assert(in_corridor(before, from.middle(), to.middle(), bend, i));
        assert(before.tiles[i] == TileType::Floor);
    }
}

/// Whether `after` is `before` with some more floor and nothing else changed
/// but the list of rooms.
pub open spec fn only_dug(before: GridView, after: GridView) -> bool {
    &&& after.width == before.width
    &&& after.height == before.height
    &&& after.blocked == before.blocked
    &&& after.revealed == before.revealed
    &&& after.visible == before.visible
    &&& after.content == before.content
    &&& after.tiles.len() == before.tiles.len()
    &&& forall|i: int|
        0 <= i < before.cells() && before.tiles[i] == TileType::Floor ==> #[trigger] after.tiles[i]
            == TileType::Floor
}

/// Digs a dungeon into the map. Up to `MAX_ROOMS` rooms are tried, each of a
/// random size and at a random place; one that touches a room dug before is
/// dropped. Every room that is dug is joined to the room dug before it by a
/// bent tunnel, with a random choice of which way it bends. The rooms are
/// noted in the map in the order they were dug.
///
/// Whatever the random numbers are: at least one room is dug, the rooms lie on
/// the grid and keep clear of each other, all of their cells are floor, each
/// room is joined to the one before it, and nothing of the map changes but
/// walls that turn into floor.
pub fn build_map(map_data: &mut GridMap)
    requires
        old(map_data).wf(),
        roomy(old(map_data)@),
    ensures
        final(map_data).wf(),
        only_dug(old(map_data)@, final(map_data)@),
        1 <= final(map_data)@.rooms.len() <= MAX_ROOMS,
        rooms_fit(final(map_data)@, final(map_data)@.rooms),
        rooms_dug(final(map_data)@, final(map_data)@.rooms),
        rooms_joined(final(map_data)@, final(map_data)@.rooms),
{
    let ghost before = map_data@;
    let mut rooms: Vec<Rect> = Vec::new();
    let mut rng = rand::thread_rng();
    let width: i32 = map_data.width();
    let height: i32 = map_data.height();
    let mut tried: i32 = 0;
    while tried < MAX_ROOMS
        invariant
            0 <= tried <= MAX_ROOMS,
            before == old(map_data)@,
            before.wf(),
            roomy(before),
            map_data.wf(),
            width == before.width,
            height == before.height,
            only_dug(before, map_data@),
            map_data@.rooms == before.rooms,
            rooms@.len() <= tried,
            tried >= 1 ==> rooms@.len() >= 1,
            rooms_fit(before, rooms@),
            rooms_dug(map_data@, rooms@),
            rooms_joined(map_data@, rooms@),
        decreases MAX_ROOMS - tried,
    {
        let w: i32 = gen_range(&mut rng, MIN_SIZE, MAX_SIZE);
        let h: i32 = gen_range(&mut rng, MIN_SIZE, MAX_SIZE);
        let x: i32 = gen_range(&mut rng, -(width / 2), width / 2 - w - 2);
        let y: i32 = gen_range(&mut rng, -(height / 2), height / 2 - h - 2);
        let new_room = Rect::new(x, y, w, h);
        if new_room.fits_among(&rooms) {
            let ghost undug = map_data@;
            let ghost placed = rooms@;
            let ghost mut bend: bool = true;
            map_data.apply_room(&new_room);
            if rooms.len() > 0 {
                let to: (i32, i32) = new_room.center();
                let from: (i32, i32) = rooms[rooms.len() - 1].center();
                let horizontal_first: bool = gen_bool(&mut rng);
                connect_rooms(map_data, from, to, horizontal_first);
                proof {
                    bend = horizontal_first;
                    lemma_corridor_is_dug(undug.with_room(new_room), from, to, horizontal_first);
                    assert(corridor_dug(
                        map_data@,
                        placed[placed.len() - 1].middle(),
                        new_room.middle(),
                        bend,
                    ));
                }
            }
            rooms.push(new_room);
            proof {
                assert forall|k: int| 1 <= k < rooms@.len() implies joined(
                    map_data@,
                    rooms@[k - 1],
                    #[trigger] rooms@[k],
                ) by {
                    if k < placed.len() {
                        assert(rooms@[k] == placed[k] && rooms@[k - 1] == placed[k - 1]);
                        assert(joined(undug, placed[k - 1], placed[k]));
                        lemma_joined_stays(undug, map_data@, placed[k - 1], placed[k]);
                    } else {
                        assert(corridor_dug(
                            map_data@,
                            rooms@[k - 1].middle(),
                            rooms@[k].middle(),
                            bend,
                        ));
                    }
                }
                assert forall|k: int, i: int|
                    0 <= k < rooms@.len() && 0 <= i < map_data@.cells() && map_data@.in_room(
                        #[trigger] rooms@[k],
                        i,
                    ) implies #[trigger] map_data@.tiles[i] == TileType::Floor by {
                    if k < rooms@.len() - 1 {
                        assert(undug.in_room(rooms@[k], i));
                        assert(undug.tiles[i] == TileType::Floor);
                    } else {
                        assert(undug.in_room(new_room, i));
                        assert(undug.with_room(new_room).tiles[i] == TileType::Floor);
                    }
                }
            }
        }
        tried = tried + 1;
    }
    let ghost dug = map_data@;
    map_data.set_rooms(rooms);
    proof {
        assert forall|k: int| 1 <= k < rooms@.len() implies joined(
            map_data@,
            rooms@[k - 1],
            #[trigger] rooms@[k],
        ) by {
            lemma_joined_stays(dug, map_data@, rooms@[k - 1], rooms@[k]);
        }
    }
}

} // verus!
