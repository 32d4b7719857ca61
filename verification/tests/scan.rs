use sightline::angle::{angle_contained_in, visible_when, Angle};
use sightline::scan::CircleIter;

fn offsets(radius: i32) -> Vec<(i32, i32)> {
    let mut iter: CircleIter<()> = CircleIter::new(radius);
    let mut all = Vec::new();
    while let Some(item) = iter.next() {
        all.push((item.0, item.1));
    }
    all
}

fn fraction(angle: &Angle) -> (u64, u64) {
    (angle.numerator(), angle.denominator())
}

#[test]
fn radius_zero_yields_only_the_origin() {
    let mut iter: CircleIter<()> = CircleIter::new(0);
    let first = iter.next().unwrap();
    assert_eq!((first.0, first.1), (0, 0));
    assert!(iter.next().is_none());
    assert!(iter.next().is_none());
}

#[test]
fn origin_has_zero_angles() {
    let mut iter: CircleIter<()> = CircleIter::new(3);
    let (x, y, (near, center, far)) = iter.next().unwrap();
    assert_eq!((x, y), (0, 0));
    assert_eq!(fraction(&near).0, 0);
    assert_eq!(fraction(&center).0, 0);
    assert_eq!(fraction(&far).0, 0);
}

#[test]
fn radius_one_goes_round_the_octants() {
    assert_eq!(
        offsets(1),
        vec![(0, 0), (0, 1), (1, 0), (0, -1), (1, 0), (0, -1), (-1, 0), (0, 1), (-1, 0)]
    );
}

#[test]
fn radius_two_first_octants() {
    let all = offsets(2);
    assert_eq!(all.len(), 33);
    assert_eq!(&all[..5], &[(0, 0), (0, 1), (1, 1), (0, 2), (1, 2)]);
    assert_eq!(&all[5..9], &[(1, 0), (1, 1), (2, 0), (2, 1)]);
    assert_eq!(&all[9..13], &[(0, -1), (1, -1), (0, -2), (1, -2)]);
    assert_eq!(&all[29..33], &[(-1, 0), (-1, 1), (-2, 0), (-2, 1)]);
}

#[test]
fn radius_two_leaves_out_the_corners() {
    let all = offsets(2);
    for x in -2..=2 {
        for y in -2..=2 {
            let corner = x * x + y * y == 8;
            assert_eq!(all.contains(&(x, y)), !corner, "({x}, {y})");
        }
    }
    assert!(!all.contains(&(3, 0)));
}

#[test]
fn fudge_takes_in_the_cells_just_past_the_radius() {
    // 5 * 5 + 2 * 2 = 29 > 25, yet sqrt(29) = 5.385.. lies past 5.33
    let all = offsets(5);
    assert!(all.contains(&(5, 1)));
    assert!(!all.contains(&(5, 2)));
    assert!(all.contains(&(4, 3)));
    // sqrt(10) = 3.162.. < 3.33
    assert!(offsets(3).contains(&(3, 1)));
    assert!(!offsets(3).contains(&(3, 2)));
}

#[test]
fn angles_of_a_cell() {
    let mut iter: CircleIter<()> = CircleIter::new(2);
    let mut found = false;
    while let Some((x, y, (near, center, far))) = iter.next() {
        if (x, y) == (1, 2) {
            // row 2, column 1: a third, a half, two thirds
            assert_eq!(fraction(&near), (2, 6));
            assert_eq!(fraction(&center), (3, 6));
            assert_eq!(fraction(&far), (4, 6));
            found = true;
            break;
        }
    }
    assert!(found);
}

#[test]
fn angles_are_ordered_within_a_cell() {
    let mut iter: CircleIter<()> = CircleIter::new(6);
    iter.next();
    while let Some((_, _, (near, center, far))) = iter.next() {
        assert!(near.less_than(&center));
        assert!(center.less_than(&far));
    }
}

#[test]
fn scan_stays_over() {
    let mut iter: CircleIter<()> = CircleIter::new(1);
    let mut count = 0;
    while iter.next().is_some() {
        count += 1;
    }
    assert_eq!(count, 9);
    for _ in 0..20 {
        assert!(iter.next().is_none());
    }
}

#[test]
fn obstructions_are_dropped_at_the_next_octant() {
    let mut iter: CircleIter<u8> = CircleIter::new(1);
    iter.next();
    let (_, _, (near, _, far)) = iter.next().unwrap();
    iter.record(near, far, 7);
    assert_eq!(iter.obstructions().len(), 1);
    assert_eq!(iter.obstructions()[0].2, 7);
    let next = iter.next().unwrap();
    assert_eq!((next.0, next.1), (1, 0));
    assert!(iter.obstructions().is_empty());
}

#[test]
fn contained_angles_exclude_the_end_points() {
    let third = Angle::new(1, 3);
    let two_sixths = Angle::new(2, 6);
    let half = Angle::new(1, 2);
    let zero = Angle::zero();
    assert!(angle_contained_in(&third, &zero, &half));
    assert!(!angle_contained_in(&third, &two_sixths, &half));
    assert!(!angle_contained_in(&half, &zero, &half));
    assert!(!angle_contained_in(&zero, &zero, &half));
    assert!(!two_sixths.less_than(&third));
    assert!(!third.less_than(&two_sixths));
}

#[test]
fn visible_when_needs_the_center_and_one_edge() {
    assert!(visible_when(true, true, true));
    assert!(visible_when(true, true, false));
    assert!(visible_when(true, false, true));
    assert!(!visible_when(true, false, false));
    assert!(!visible_when(false, true, true));
    assert!(!visible_when(false, false, false));
}
