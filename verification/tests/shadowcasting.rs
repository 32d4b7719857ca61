use sightline::shadowcasting::{OpaqueCells, RPAShadowcasting};

fn cast(radius: i32, walls: Vec<(i32, i32)>) -> Vec<(i32, i32, bool)> {
    let mut caster = RPAShadowcasting::new(radius, OpaqueCells::new(walls));
    let mut all = Vec::new();
    while let Some(item) = caster.next() {
        all.push(item);
    }
    all
}

fn seen(all: &[(i32, i32, bool)], x: i32, y: i32) -> bool {
    let mut found = false;
    let mut visible = true;
    for &(a, b, v) in all {
        if (a, b) == (x, y) {
            found = true;
            visible = visible && v;
        }
    }
    assert!(found, "({x}, {y}) is not in the scan");
    visible
}

#[test]
fn origin_comes_first_and_is_visible() {
    assert_eq!(cast(8, vec![])[0], (0, 0, true));
    assert_eq!(cast(0, vec![]), vec![(0, 0, true)]);
}

#[test]
fn origin_is_visible_even_when_opaque() {
    let all = cast(3, vec![(0, 0)]);
    assert_eq!(all[0], (0, 0, true));
    assert!(all.iter().all(|&(_, _, v)| v));
}

#[test]
fn open_field_is_seen_whole() {
    let all = cast(8, vec![]);
    assert!(all.iter().all(|&(_, _, v)| v));
}

#[test]
fn single_wall_hides_what_is_behind_it() {
    let all = cast(8, vec![(1, 0)]);
    assert!(seen(&all, 1, 0));
    assert!(!seen(&all, 2, 0));
    assert!(!seen(&all, 8, 0));
    assert!(seen(&all, 0, 2));
    assert!(seen(&all, -2, 0));
    assert!(seen(&all, 0, -2));
}

#[test]
fn single_wall_leaves_other_octants_alone() {
    let all = cast(8, vec![(1, 0)]);
    // (1, 0) lies in the two octants along the positive x axis only
    for &(x, y, v) in &all {
        if x <= 0 || y.abs() > x {
            assert!(v, "({x}, {y})");
        }
    }
}

#[test]
fn order_is_that_of_the_scan() {
    let all = cast(1, vec![]);
    let offsets: Vec<(i32, i32)> = all.iter().map(|&(x, y, _)| (x, y)).collect();
    assert_eq!(
        offsets,
        vec![(0, 0), (0, 1), (1, 0), (0, -1), (1, 0), (0, -1), (-1, 0), (0, 1), (-1, 0)]
    );
}

#[test]
fn wall_at_row_one_first_octant() {
    // first octant of radius 2: (0,1) (1,1) (0,2) (1,2)
    let all = cast(2, vec![(0, 1)]);
    assert_eq!(&all[..5], &[
        (0, 0, true),
        (0, 1, true),
        (1, 1, true),
        // centre 1/6 lies in the wall's shadow from 0 to 1/2
        (0, 2, false),
        // near edge 1/3 is in the shadow, centre 1/2 is on its edge and far edge 2/3 is free
        (1, 2, true),
    ]);
}

#[test]
fn edge_of_a_shadow_does_not_hide() {
    // the wall at row 1, column 1 throws the shadow from 1/2 to 1
    let all = cast(2, vec![(1, 1)]);
    // (1, 2) has its centre at 1/2, on the edge, and its near edge at 1/3
    assert_eq!(all[4], (1, 2, true));
    // (0, 2) lies at 0 to 1/3
    assert_eq!(all[3], (0, 2, true));
}

#[test]
fn hidden_cells_throw_shadows_too() {
    // radius 3, first octant: rows (0,1)(1,1) (0,2)(1,2)(2,2) (0,3)(1,3)
    let all = cast(3, vec![(0, 1)]);
    let first: Vec<(i32, i32, bool)> = all[1..8].to_vec();
    assert_eq!(first, vec![
        (0, 1, true),
        (1, 1, true),
        (0, 2, false),
        (1, 2, true),
        // from 2/3 to 1, past every shadow
        (2, 2, true),
        // centre 1/8 in the shadow 0 to 1/2
        (0, 3, false),
        // centre 3/8 in the shadow 0 to 1/2
        (1, 3, false),
    ]);
}

#[test]
fn caster_stays_exhausted() {
    let mut caster = RPAShadowcasting::new(1, OpaqueCells::new(vec![]));
    let mut count = 0;
    while caster.next().is_some() {
        count += 1;
    }
    assert_eq!(count, 9);
    assert!(caster.next().is_none());
    assert!(caster.next().is_none());
}
