use sightline::components::{Position, Viewshed};
use sightline::map::{GridMap, TileType};
use sightline::visibility_system::{compute_visible, visibility};

/// A map of walls with an open room of 5 by 5 cells around the centre.
fn room() -> GridMap {
    let mut map = GridMap::new(12, 12).unwrap();
    for x in -2..=2 {
        for y in -2..=2 {
            map.set_tile(x, y, TileType::Floor);
        }
    }
    map
}

const CENTER: Position = Position { x: 0, y: 0 };

#[test]
fn viewshed_needs_a_positive_range() {
    assert!(Viewshed::new(0).is_none());
    assert!(Viewshed::new(-4).is_none());
    let viewshed = Viewshed::new(8).unwrap();
    assert_eq!(viewshed.range(), 8);
    assert!(viewshed.is_dirty());
    assert!(viewshed.visible_tiles().is_empty());
}

#[test]
fn range_can_be_changed_to_a_positive_one() {
    let mut map = room();
    let mut viewshed = Viewshed::new(2).unwrap();
    visibility(&mut map, &mut viewshed, CENTER, false);
    assert!(!viewshed.set_range(0));
    assert_eq!(viewshed.range(), 2);
    assert!(!viewshed.is_dirty());
    assert!(viewshed.set_range(3));
    assert_eq!(viewshed.range(), 3);
    assert!(viewshed.is_dirty());
}

#[test]
fn open_room_is_seen_up_to_the_range() {
    let mut map = room();
    let mut viewshed = Viewshed::new(2).unwrap();
    visibility(&mut map, &mut viewshed, CENTER, true);
    assert!(!viewshed.is_dirty());
    // one entry per item of the scan: cells on the border of two octants come twice
    assert_eq!(viewshed.visible_tiles().len(), 33);
    let mut seen = 0;
    for x in -2..=2 {
        for y in -2..=2 {
            // the four corners lie 2.83 away, beyond 2.33
            let corner = x * x + y * y == 8;
            assert_eq!(map.is_visible(x, y), !corner, "({x}, {y})");
            assert_eq!(map.is_revealed(x, y), !corner);
            assert_eq!(viewshed.visible_tiles().contains(&(x, y)), !corner);
            if !corner {
                seen += 1;
            }
        }
    }
    assert_eq!(seen, 21);
    assert!(!map.is_visible(3, 0));
}

#[test]
fn open_room_is_seen_whole_from_range_three() {
    let mut map = room();
    let mut viewshed = Viewshed::new(3).unwrap();
    visibility(&mut map, &mut viewshed, CENTER, true);
    for x in -2..=2 {
        for y in -2..=2 {
            assert!(map.is_visible(x, y), "({x}, {y})");
        }
    }
    // the walls around the room are seen too
    assert!(map.is_visible(3, 0));
    assert!(map.is_visible(0, -3));
}

#[test]
fn wall_to_the_north_hides_what_is_behind_it() {
    let mut map = room();
    map.set_tile(0, 1, TileType::Wall);
    let mut viewshed = Viewshed::new(2).unwrap();
    visibility(&mut map, &mut viewshed, CENTER, true);
    assert!(map.is_visible(0, 1));
    assert!(!map.is_visible(0, 2));
    assert!(map.is_visible(2, 0));
    assert!(map.is_visible(-2, 0));
    assert!(map.is_visible(0, -2));
    assert!(map.is_visible(1, 0));
    assert!(map.is_visible(-1, 0));
    assert!(map.is_visible(0, -1));

    let mut far_sighted = Viewshed::new(3).unwrap();
    visibility(&mut map, &mut far_sighted, CENTER, true);
    assert!(!map.is_visible(0, 2));
    assert!(!map.is_visible(0, 3));
    assert!(map.is_visible(3, 0));
    assert!(map.is_visible(-3, 0));
    assert!(map.is_visible(0, -3));
}

#[test]
fn fresh_viewshed_is_left_alone() {
    let mut map = room();
    let mut viewshed = Viewshed::new(2).unwrap();
    visibility(&mut map, &mut viewshed, CENTER, true);
    let first = viewshed.visible_tiles().clone();
    // the world changes, but nobody marked the viewshed stale
    map.set_tile(0, 1, TileType::Wall);
    visibility(&mut map, &mut viewshed, CENTER, true);
    visibility(&mut map, &mut viewshed, CENTER, true);
    assert_eq!(viewshed.visible_tiles(), &first);
    assert!(map.is_visible(0, 2));
    viewshed.mark_dirty();
    visibility(&mut map, &mut viewshed, CENTER, true);
    assert!(!map.is_visible(0, 2));
    assert_ne!(viewshed.visible_tiles(), &first);
}

#[test]
fn revealed_cells_stay_revealed() {
    let mut map = room();
    let mut viewshed = Viewshed::new(2).unwrap();
    visibility(&mut map, &mut viewshed, Position { x: -1, y: 0 }, true);
    assert!(map.is_visible(-3, 0));
    assert!(map.is_revealed(-3, 0));
    viewshed.mark_dirty();
    visibility(&mut map, &mut viewshed, Position { x: 1, y: 0 }, true);
    assert!(!map.is_visible(-3, 0));
    assert!(map.is_revealed(-3, 0));
    assert!(map.is_visible(3, 0));
    for idx in 0..144 {
        let (x, y) = map.idx_xy(idx);
        if map.is_visible(x, y) {
            assert!(map.is_revealed(x, y));
        }
    }
}

#[test]
fn other_agents_do_not_touch_the_map() {
    let mut map = room();
    let mut viewshed = Viewshed::new(2).unwrap();
    visibility(&mut map, &mut viewshed, CENTER, false);
    assert!(!viewshed.is_dirty());
    assert_eq!(viewshed.visible_tiles().len(), 33);
    for idx in 0..144 {
        let (x, y) = map.idx_xy(idx);
        assert!(!map.is_visible(x, y));
        assert!(!map.is_revealed(x, y));
    }
}

#[test]
fn cells_outside_the_window_are_dropped() {
    // an open map of 6 by 6: x and y from -3 to 2
    let mut map = GridMap::new(6, 6).unwrap();
    for idx in 0..36 {
        let (x, y) = map.idx_xy(idx);
        map.set_tile(x, y, TileType::Floor);
    }
    let tiles = compute_visible(&map, 2, Position { x: 2, y: 2 });
    assert!(tiles.contains(&(2, 2)));
    assert!(tiles.contains(&(0, 2)));
    assert!(tiles.contains(&(2, 0)));
    assert!(tiles.iter().all(|&(x, y)| (-3..=2).contains(&x) && (-3..=2).contains(&y)));
    // in order of the scan: the origin; the two octants towards +x and +y
    // run off the map; the third octant goes down the column of the agent
    assert_eq!(&tiles[..3], &[(2, 2), (2, 1), (2, 0)]);
}

#[test]
fn on_an_odd_map_the_last_row_and_column_are_not_reported() {
    let mut map = GridMap::new(5, 5).unwrap();
    for idx in 0..25 {
        let (x, y) = map.idx_xy(idx);
        map.set_tile(x, y, TileType::Floor);
    }
    let mut viewshed = Viewshed::new(3).unwrap();
    visibility(&mut map, &mut viewshed, CENTER, true);
    assert!(map.is_visible(1, 1));
    assert!(map.is_visible(-2, -2));
    assert!(!map.is_visible(2, 0));
    assert!(!map.is_visible(0, 2));
}

#[test]
fn walls_outside_the_map_do_not_exist() {
    // the agent stands in the corner of an open map and looks out of it
    let mut map = GridMap::new(4, 4).unwrap();
    for idx in 0..16 {
        let (x, y) = map.idx_xy(idx);
        map.set_tile(x, y, TileType::Floor);
    }
    let mut viewshed = Viewshed::new(4).unwrap();
    visibility(&mut map, &mut viewshed, Position { x: -2, y: -2 }, true);
    for idx in 0..16 {
        let (x, y) = map.idx_xy(idx);
        assert!(map.is_visible(x, y), "({x}, {y})");
    }
}
