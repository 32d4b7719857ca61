use sightline::components::{Occupant, Position, Viewshed};
use sightline::map::{GridMap, MapError, TileType, ARENA_HEIGHT, ARENA_WIDTH};
use sightline::map_system::{draw_map, luminance, map_indexing, TileLook, Tint};
use sightline::player::{character_movement, try_move_player};
use sightline::state_manager_system::{state_manager, GameState};

fn open_map(width: i32, height: i32) -> GridMap {
    let mut map = GridMap::new(width, height).unwrap();
    for idx in 0..(width * height) as usize {
        let (x, y) = map.idx_xy(idx);
        map.set_tile(x, y, TileType::Floor);
    }
    map
}

#[test]
fn coordinates_and_indices_are_inverse() {
    for (width, height) in [(80, 50), (5, 5), (7, 4), (1, 1), (2, 9)] {
        let map = GridMap::new(width, height).unwrap();
        for idx in 0..(width * height) as usize {
            let (x, y) = map.idx_xy(idx);
            assert!(map.in_bounds(x, y));
            assert_eq!(map.xy_idx(x, y), idx);
        }
        for y in -(height / 2)..(height - height / 2) {
            for x in -(width / 2)..(width - width / 2) {
                assert_eq!(map.idx_xy(map.xy_idx(x, y)), (x, y));
            }
        }
    }
}

#[test]
fn index_formula() {
    let map = GridMap::default();
    assert_eq!(map.width(), ARENA_WIDTH);
    assert_eq!(map.height(), ARENA_HEIGHT);
    assert_eq!(map.xy_idx(-40, -25), 0);
    assert_eq!(map.xy_idx(0, 0), 25 * 80 + 40);
    assert_eq!(map.xy_idx(39, 24), 3999);
    assert_eq!(map.xy_idx(3, -2), 23 * 80 + 43);
    assert_eq!(map.idx_xy(0), (-40, -25));
    assert_eq!(map.idx_xy(3999), (39, 24));
    assert_eq!(map.idx_xy(81), (-39, -24));
}

#[test]
fn bounds_of_even_and_odd_maps() {
    let even = GridMap::new(4, 4).unwrap();
    assert!(even.in_bounds(-2, -2));
    assert!(even.in_bounds(1, 1));
    assert!(!even.in_bounds(2, 0));
    assert!(!even.in_bounds(0, -3));
    assert!(even.in_window(1, 1));
    assert!(!even.in_window(2, 1));
    let odd = GridMap::new(5, 5).unwrap();
    assert!(odd.in_bounds(2, 2));
    assert!(!odd.in_bounds(3, 0));
    assert!(odd.in_window(1, 1));
    assert!(!odd.in_window(2, 0));
    assert!(!odd.in_window(0, 2));
}

#[test]
fn empty_maps_are_refused() {
    assert!(matches!(GridMap::new(0, 5), Err(MapError::Empty)));
    assert!(matches!(GridMap::new(5, 0), Err(MapError::Empty)));
    assert!(matches!(GridMap::new(-3, 4), Err(MapError::Empty)));
    assert!(GridMap::new(1, 1).is_ok());
}

#[test]
fn new_map_is_all_wall_and_unseen() {
    let map = GridMap::new(6, 3).unwrap();
    for idx in 0..18 {
        let (x, y) = map.idx_xy(idx);
        assert_eq!(map.tile_at(x, y), TileType::Wall);
        assert!(!map.is_blocked(x, y));
        assert!(!map.is_revealed(x, y));
        assert!(!map.is_visible(x, y));
        assert!(map.content_at(x, y).is_empty());
    }
    assert!(map.rooms().is_empty());
}

#[test]
fn walls_block() {
    let mut map = GridMap::new(6, 6).unwrap();
    map.set_tile(0, 0, TileType::Floor);
    map.set_tile(1, 0, TileType::Floor);
    map.populate_blocked();
    assert!(!map.is_blocked(0, 0));
    assert!(!map.is_blocked(1, 0));
    assert!(map.is_blocked(2, 0));
    assert!(map.is_blocked(-3, -3));
    assert!(map.is_wall(2, 0));
    assert!(!map.is_wall(0, 0));
    assert!(!map.is_wall(100, 0));
    assert!(!map.is_wall(0, i64::MAX));
}

#[test]
fn marking_twice_is_marking_once() {
    let mut map = open_map(4, 4);
    map.populate_blocked();
    map.mark_blocking(1, 1);
    assert!(map.is_blocked(1, 1));
    map.mark_blocking(1, 1);
    assert!(map.is_blocked(1, 1));
    assert!(!map.is_blocked(0, 1));
    map.populate_blocked();
    assert!(!map.is_blocked(1, 1));
}

#[test]
fn occupants_are_entered_in_order() {
    let mut map = open_map(6, 6);
    let occupants = vec![
        Occupant { id: 7, position: Position { x: 1, y: 1 }, blocks: false },
        Occupant { id: 3, position: Position { x: -2, y: 0 }, blocks: true },
        Occupant { id: 9, position: Position { x: 1, y: 1 }, blocks: false },
    ];
    map_indexing(&mut map, &occupants);
    assert_eq!(map.content_at(1, 1), &vec![7, 9]);
    assert_eq!(map.content_at(-2, 0), &vec![3]);
    assert!(map.content_at(0, 0).is_empty());
    assert!(map.is_blocked(-2, 0));
    assert!(!map.is_blocked(1, 1));
    // the next tick starts from scratch
    let moved = vec![Occupant { id: 3, position: Position { x: -1, y: 0 }, blocks: true }];
    map_indexing(&mut map, &moved);
    assert!(!map.is_blocked(-2, 0));
    assert!(map.is_blocked(-1, 0));
    assert!(map.content_at(1, 1).is_empty());
    assert_eq!(map.content_at(-1, 0), &vec![3]);
}

#[test]
fn clearing_empties_every_cell() {
    let mut map = open_map(4, 4);
    map.add_occupant(0, 0, 1);
    map.add_occupant(0, 0, 2);
    map.add_occupant(1, -1, 3);
    assert_eq!(map.content_at(0, 0), &vec![1, 2]);
    map.clear_content_index();
    for idx in 0..16 {
        let (x, y) = map.idx_xy(idx);
        assert!(map.content_at(x, y).is_empty());
    }
}

#[test]
fn luminance_weights() {
    assert_eq!(luminance(Tint { red: 10_000, green: 0, blue: 0 }), 2_126);
    assert_eq!(luminance(Tint { red: 0, green: 10_000, blue: 0 }), 7_152);
    assert_eq!(luminance(Tint { red: 0, green: 0, blue: 10_000 }), 722);
    assert_eq!(luminance(Tint { red: 10_000, green: 10_000, blue: 10_000 }), 10_000);
    assert_eq!(luminance(Tint { red: 0, green: 5_000, blue: 5_000 }), 3_937);
    assert_eq!(luminance(Tint { red: 1, green: 1, blue: 1 }), 1);
    assert_eq!(luminance(Tint { red: 3, green: 0, blue: 0 }), 0);
}

#[test]
fn unseen_cells_are_not_drawn() {
    let map = open_map(4, 4);
    for idx in 0..16 {
        assert_eq!(draw_map(&map, idx), None);
    }
}

#[test]
fn seen_cells_are_drawn_lit_and_remembered_cells_grey() {
    let mut map = GridMap::new(6, 6).unwrap();
    map.set_tile(0, 0, TileType::Floor);
    map.set_visible_tiles(&vec![(0, 0), (1, 0)]);
    let floor = map.xy_idx(0, 0);
    let wall = map.xy_idx(1, 0);
    assert_eq!(
        draw_map(&map, floor),
        Some(TileLook { glyph: '.', tint: Tint { red: 0, green: 5_000, blue: 5_000 } })
    );
    assert_eq!(
        draw_map(&map, wall),
        Some(TileLook { glyph: '#', tint: Tint { red: 0, green: 10_000, blue: 0 } })
    );
    map.set_visible_tiles(&vec![]);
    assert_eq!(
        draw_map(&map, floor),
        Some(TileLook { glyph: '.', tint: Tint { red: 3_937, green: 3_937, blue: 3_937 } })
    );
    assert_eq!(
        draw_map(&map, wall),
        Some(TileLook { glyph: '#', tint: Tint { red: 7_152, green: 7_152, blue: 7_152 } })
    );
    assert_eq!(draw_map(&map, map.xy_idx(2, 2)), None);
}

#[test]
fn player_moves_onto_free_cells_only() {
    let mut map = GridMap::new(6, 6).unwrap();
    map.set_tile(0, 0, TileType::Floor);
    map.set_tile(1, 0, TileType::Floor);
    map.populate_blocked();
    let mut position = Position { x: 0, y: 0 };
    assert!(try_move_player(&map, &mut position, (1, 0)));
    assert_eq!(position, Position { x: 1, y: 0 });
    assert!(!try_move_player(&map, &mut position, (1, 0)));
    assert_eq!(position, Position { x: 1, y: 0 });
    assert!(!try_move_player(&map, &mut position, (0, 1)));
    assert!(try_move_player(&map, &mut position, (-1, 0)));
    assert_eq!(position, Position { x: 0, y: 0 });
}

#[test]
fn moving_makes_the_viewshed_stale() {
    let mut map = GridMap::new(6, 6).unwrap();
    map.set_tile(0, 0, TileType::Floor);
    map.set_tile(0, 1, TileType::Floor);
    map.populate_blocked();
    let mut position = Position { x: 0, y: 0 };
    let mut viewshed = Viewshed::new(3).unwrap();
    sightline::visibility_system::visibility(&mut map, &mut viewshed, position, false);
    assert!(!viewshed.is_dirty());
    assert!(!character_movement(&map, &mut position, &mut viewshed, (1, 0)));
    assert!(!viewshed.is_dirty());
    assert!(character_movement(&map, &mut position, &mut viewshed, (0, 1)));
    assert!(viewshed.is_dirty());
    assert_eq!(position, Position { x: 0, y: 1 });
}

#[test]
fn turns() {
    assert_eq!(state_manager(GameState::PlayerTurn), (GameState::AwaitingInput, true));
    assert_eq!(state_manager(GameState::AwaitingInput), (GameState::AwaitingInput, false));
    assert_eq!(state_manager(GameState::PreRun), (GameState::PreRun, false));
    assert_eq!(state_manager(GameState::Running), (GameState::Running, false));
}
