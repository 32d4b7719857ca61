use sightline::partial::{CellOpacities, RPAPartialShadowcasting, FULL_OPACITY};
use sightline::shadowcasting::{OpaqueCells, RPAShadowcasting};

/// The octants in the order of the scan: sign of x, sign of y, rows along y.
const OCTANTS: [(i32, i32, bool); 8] = [
    (1, 1, true),
    (1, 1, false),
    (1, -1, true),
    (1, -1, false),
    (-1, -1, true),
    (-1, -1, false),
    (-1, 1, true),
    (-1, 1, false),
];

/// Angles that differ by less than this are taken to be the same. Two
/// different angles of cells within a radius of 20 are at least 1 / 1764
/// apart.
const SAME: f64 = 1e-9;

/// The scan in floating point: offsets with near, centre and far angle, and
/// the octant of each. The circle is cut in single precision.
fn float_scan(radius: i32) -> Vec<(usize, i32, i32, f64, f64, f64)> {
    let mut cells = vec![(0, 0, 0, 0., 0., 0.)];
    for (octant, &(qx, qy, vertical)) in OCTANTS.iter().enumerate() {
        for r in 1..=radius {
            for x in 0..=r {
                let (a, b) = if vertical { (x * qx, r * qy) } else { (r * qx, x * qy) };
                if (a as f32).hypot(b as f32) >= 0.33 + radius as f32 {
                    continue;
                }
                let angle_alloc = 1. / ((r + 1) as f64);
                let near = (x as f64) * angle_alloc;
                let center = near + 0.5 * angle_alloc;
                let far = near + angle_alloc;
                cells.push((octant, a, b, near, center, far));
            }
        }
    }
    cells
}

fn contained(angle: f64, start: f64, end: f64) -> bool {
    start + SAME < angle && angle < end - SAME
}

fn float_cast(radius: i32, walls: &[(i32, i32)]) -> Vec<(i32, i32, bool)> {
    let mut out = Vec::new();
    let mut shadows: Vec<(f64, f64)> = Vec::new();
    let mut current = 0;
    for (octant, a, b, near, center, far) in float_scan(radius) {
        if octant != current {
            shadows.clear();
            current = octant;
        }
        let near_vis = !shadows.iter().any(|&(s, e)| contained(near, s, e));
        let center_vis = !shadows.iter().any(|&(s, e)| contained(center, s, e));
        let far_vis = !shadows.iter().any(|&(s, e)| contained(far, s, e));
        let visible = center_vis && (near_vis || far_vis);
        if !visible || walls.contains(&(a, b)) {
            shadows.push((near, far));
        }
        out.push((a, b, visible));
    }
    out
}

fn float_cast_partial(radius: i32, haze: &[(i32, i32, f64)]) -> Vec<(i32, i32, f64)> {
    let mut out = Vec::new();
    let mut veils: Vec<(f64, f64, f64)> = Vec::new();
    let mut current = 0;
    for (octant, a, b, near, center, far) in float_scan(radius) {
        if octant != current {
            veils.clear();
            current = octant;
        }
        let mut opacity: f64 = 0.;
        let mut near_vis = true;
        let mut center_vis = true;
        let mut far_vis = true;
        for &(s, e, o) in veils.iter() {
            near_vis = near_vis && !contained(near, s, e);
            center_vis = center_vis && !contained(center, s, e);
            far_vis = far_vis && !contained(far, s, e);
            if !center_vis {
                opacity = opacity.max(0.5 * o);
            }
            if !(center_vis && (near_vis || far_vis)) {
                opacity = opacity.max(o);
            }
            if opacity >= 1. {
                break;
            }
        }
        let own = haze.iter().find(|&&(x, y, _)| (x, y) == (a, b)).map_or(0., |&(_, _, o)| o);
        let behind = opacity + own;
        if behind > 0. {
            veils.push((near, far, behind));
        }
        out.push((a, b, opacity.min(1.)));
    }
    out
}

fn exact_cast(radius: i32, walls: &[(i32, i32)]) -> Vec<(i32, i32, bool)> {
    let mut caster = RPAShadowcasting::new(radius, OpaqueCells::new(walls.to_vec()));
    let mut all = Vec::new();
    while let Some(item) = caster.next() {
        all.push(item);
    }
    all
}

fn exact_cast_partial(radius: i32, haze: &[(i32, i32, u32)]) -> Vec<(i32, i32, u32)> {
    let mut caster = RPAPartialShadowcasting::new(radius, CellOpacities::new(haze.to_vec()));
    let mut all = Vec::new();
    while let Some(item) = caster.next() {
        all.push(item);
    }
    all
}

/// A sequence of numbers that looks random and is the same on every run.
struct Sequence(u64);

impl Sequence {
    fn next(&mut self, below: u64) -> u64 {
        self.0 = self.0.wrapping_mul(6364136223846793005).wrapping_add(1442695040888963407);
        (self.0 >> 33) % below
    }
}

#[test]
fn circle_agrees_with_single_precision() {
    for radius in 0..=40 {
        let float: Vec<(i32, i32)> = float_scan(radius).iter().map(|c| (c.1, c.2)).collect();
        let exact: Vec<(i32, i32)> =
            exact_cast(radius, &[]).iter().map(|&(x, y, _)| (x, y)).collect();
        assert_eq!(float, exact, "radius {radius}");
    }
}

#[test]
fn shadows_agree_with_floating_point() {
    let mut sequence = Sequence(7);
    for round in 0..400 {
        let radius = 1 + (round % 10) as i32;
        let side = (2 * radius + 1) as u64;
        let count = sequence.next(1 + side * side / 4);
        let walls: Vec<(i32, i32)> = (0..count)
            .map(|_| (sequence.next(side) as i32 - radius, sequence.next(side) as i32 - radius))
            .collect();
        let float = float_cast(radius, &walls);
        let exact = exact_cast(radius, &walls);
        assert_eq!(float, exact, "radius {radius}, walls {walls:?}");
    }
}

#[test]
fn opacities_agree_with_floating_point() {
    let mut sequence = Sequence(11);
    for round in 0..200 {
        let radius = 1 + (round % 8) as i32;
        let side = (2 * radius + 1) as u64;
        let count = sequence.next(1 + side * side / 3);
        let haze: Vec<(i32, i32, u32)> = (0..count)
            .map(|_| {
                (
                    sequence.next(side) as i32 - radius,
                    sequence.next(side) as i32 - radius,
                    sequence.next(5) as u32 * (FULL_OPACITY / 4),
                )
            })
            .collect();
        let mut first: Vec<(i32, i32, u32)> = Vec::new();
        for &(x, y, o) in &haze {
            if !first.iter().any(|&(a, b, _)| (a, b) == (x, y)) {
                first.push((x, y, o));
            }
        }
        let float_haze: Vec<(i32, i32, f64)> =
            first.iter().map(|&(x, y, o)| (x, y, o as f64 / FULL_OPACITY as f64)).collect();
        let float = float_cast_partial(radius, &float_haze);
        let exact = exact_cast_partial(radius, &haze);
        assert_eq!(float.len(), exact.len());
        for (f, e) in float.iter().zip(&exact) {
            assert_eq!((f.0, f.1), (e.0, e.1));
            assert_eq!(f.2, e.2 as f64 / FULL_OPACITY as f64, "radius {radius} at ({}, {})", e.0, e.1);
        }
    }
}
