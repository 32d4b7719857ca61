use sightline::partial::{CellOpacities, RPAPartialShadowcasting, FULL_OPACITY};

const HALF: u32 = FULL_OPACITY / 2;

fn cast(radius: i32, haze: Vec<(i32, i32, u32)>) -> Vec<(i32, i32, u32)> {
    let mut caster = RPAPartialShadowcasting::new(radius, CellOpacities::new(haze));
    let mut all = Vec::new();
    while let Some(item) = caster.next() {
        all.push(item);
    }
    all
}

fn dimmest(all: &[(i32, i32, u32)], x: i32, y: i32) -> u32 {
    all.iter().filter(|&&(a, b, _)| (a, b) == (x, y)).map(|&(_, _, o)| o).min().unwrap()
}

#[test]
fn clear_air_dims_nothing() {
    let all = cast(6, vec![]);
    assert_eq!(all[0], (0, 0, 0));
    assert!(all.iter().all(|&(_, _, o)| o == 0));
}

#[test]
fn a_cell_does_not_dim_itself() {
    let all = cast(4, vec![(1, 0, HALF)]);
    assert_eq!(dimmest(&all, 1, 0), 0);
}

#[test]
fn smoke_dims_what_lies_behind_it() {
    let all = cast(4, vec![(1, 0, HALF)]);
    assert_eq!(dimmest(&all, 2, 0), HALF);
    assert_eq!(dimmest(&all, 4, 0), HALF);
    assert_eq!(dimmest(&all, 0, 2), 0);
    assert_eq!(dimmest(&all, -2, 0), 0);
}

#[test]
fn smoke_adds_up_along_the_line_of_sight() {
    let quarter: u32 = FULL_OPACITY / 4;
    let all = cast(4, vec![(1, 0, quarter), (2, 0, quarter)]);
    assert_eq!(dimmest(&all, 2, 0), quarter);
    assert_eq!(dimmest(&all, 3, 0), 2 * quarter);
}

#[test]
fn opacity_is_capped() {
    let all = cast(5, vec![(1, 0, FULL_OPACITY), (2, 0, FULL_OPACITY), (3, 0, FULL_OPACITY)]);
    assert_eq!(dimmest(&all, 2, 0), FULL_OPACITY);
    assert_eq!(dimmest(&all, 3, 0), FULL_OPACITY);
    assert_eq!(dimmest(&all, 5, 0), FULL_OPACITY);
    assert!(all.iter().all(|&(_, _, o)| o <= FULL_OPACITY));
}

#[test]
fn listed_opacity_is_cut_down() {
    let all = cast(3, vec![(1, 0, 3 * FULL_OPACITY)]);
    assert_eq!(dimmest(&all, 2, 0), FULL_OPACITY);
}

#[test]
fn first_entry_of_a_cell_counts() {
    let all = cast(3, vec![(1, 0, HALF), (1, 0, FULL_OPACITY)]);
    assert_eq!(dimmest(&all, 2, 0), HALF);
}

#[test]
fn opacity_stays_in_bounds_everywhere() {
    let mut haze = Vec::new();
    for x in -6i32..=6 {
        for y in -6i32..=6 {
            haze.push((x, y, ((x * 7 + y * 13).rem_euclid(5) as u32) * (FULL_OPACITY / 4)));
        }
    }
    let all = cast(6, haze);
    assert!(all.iter().all(|&(_, _, o)| o <= FULL_OPACITY));
    assert_eq!(all[0], (0, 0, 0));
}

#[test]
fn full_walls_match_binary_shadows() {
    let all = cast(3, vec![(0, 1, FULL_OPACITY)]);
    let first: Vec<(i32, i32, u32)> = all[1..8].to_vec();
    assert_eq!(first, vec![
        (0, 1, 0),
        (1, 1, 0),
        (0, 2, FULL_OPACITY),
        (1, 2, 0),
        (2, 2, 0),
        (0, 3, FULL_OPACITY),
        (1, 3, FULL_OPACITY),
    ]);
}
