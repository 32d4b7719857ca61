//! The circular scan: every cell within a radius of the origin, octant by
//! octant, row by row, each with the angles under which it is seen.

use crate::angle::{Angle, Fraction};
use vstd::prelude::*;

verus! {

/// The circle is widened by this many hundredths of a cell, which rounds off
/// the corners that a bare radius would cut.
pub const RADIUS_FUDGE_HUNDREDTHS: u64 = 33;

/// The number of octants around the origin.
pub const OCTANTS: u8 = 8;

/// A cell of the scan by its place in it: the octant, the row (its distance
/// from the origin along the octant's main axis) and the column (its step
/// across the row). The origin is row 0 of octant 0.
pub struct Cell {
    pub octant: int,
    pub row: int,
    pub col: int,
}

/// Octants come in pairs that share a quadrant; the first of each pair runs
/// its rows along the y axis, the second along the x axis.
pub open spec fn octant_is_vertical(octant: int) -> bool {
    octant % 2 == 0
}

/// Whether x grows in an octant: the quadrants are visited in the order
/// (+,+), (+,-), (-,-), (-,+).
pub open spec fn octant_x_positive(octant: int) -> bool {
    octant < 4
}

/// Whether y grows in an octant.
pub open spec fn octant_y_positive(octant: int) -> bool {
    octant < 2 || octant >= 6
}

/// A distance laid along an axis: itself where the axis grows, its negative
/// where it falls.
pub open spec fn along(distance: int, positive: bool) -> int {
    if positive {
        distance
    } else {
        -distance
    }
}

/// Whether a cell `row` along and `col` across lies inside the widened circle:
/// its distance from the origin is below `radius + 0.33`, compared exactly, in
/// squared hundredths.
pub open spec fn within_circle(radius: int, row: int, col: int) -> bool {
    10000 * (row * row + col * col) < (100 * radius + RADIUS_FUDGE_HUNDREDTHS) * (100 * radius
        + RADIUS_FUDGE_HUNDREDTHS)
}

impl Cell {
    /// The origin of the scan.
    pub open spec fn origin() -> Cell {
        Cell { octant: 0, row: 0, col: 0 }
    }

    /// Offset from the origin along x.
    pub open spec fn dx(self) -> int {
        if octant_is_vertical(self.octant) {
            along(self.col, octant_x_positive(self.octant))
        } else {
            along(self.row, octant_x_positive(self.octant))
        }
    }

    /// Offset from the origin along y.
    pub open spec fn dy(self) -> int {
        if octant_is_vertical(self.octant) {
            along(self.row, octant_y_positive(self.octant))
        } else {
            along(self.col, octant_y_positive(self.octant))
        }
    }

    /// Angle of the cell's near edge: `col / (row + 1)`. The origin has the
    /// angle zero throughout.
    pub open spec fn near(self) -> Fraction {
        if self.row == 0 {
            Fraction { num: 0, den: 1 }
        } else {
            Fraction { num: 2 * self.col, den: 2 * (self.row + 1) }
        }
    }

    /// Angle of the cell's centre: `(col + 1/2) / (row + 1)`.
    pub open spec fn center(self) -> Fraction {
        if self.row == 0 {
            Fraction { num: 0, den: 1 }
        } else {
            Fraction { num: 2 * self.col + 1, den: 2 * (self.row + 1) }
        }
    }

    /// Angle of the cell's far edge: `(col + 1) / (row + 1)`.
    pub open spec fn far(self) -> Fraction {
        if self.row == 0 {
            Fraction { num: 0, den: 1 }
        } else {
            Fraction { num: 2 * self.col + 2, den: 2 * (self.row + 1) }
        }
    }

    /// A cell that a scan of `radius` can yield: the origin, or a cell of one
    /// of the eight octants inside the widened circle.
    pub open spec fn in_scan(self, radius: int) -> bool {
        self == Cell::origin() || (0 <= self.octant < OCTANTS && 1 <= self.row <= radius && 0
            <= self.col <= self.row && within_circle(radius, self.row, self.col))
    }
}

/// The cells of row `row` of an octant from column `col` on, in scan order.
pub open spec fn row_from(radius: int, octant: int, row: int, col: int) -> Seq<Cell>
    decreases row + 1 - col,
{
    if col > row {
        Seq::empty()
    } else if within_circle(radius, row, col) {
        seq![Cell { octant, row, col }] + row_from(radius, octant, row, col + 1)
    } else {
        row_from(radius, octant, row, col + 1)
    }
}

/// The cells of an octant from row `row` on.
pub open spec fn rows_from(radius: int, octant: int, row: int) -> Seq<Cell>
    decreases radius + 1 - row,
{
    if row > radius {
        Seq::empty()
    } else {
        row_from(radius, octant, row, 0) + rows_from(radius, octant, row + 1)
    }
}

/// The cells of the octants from `octant` on.
pub open spec fn octants_from(radius: int, octant: int) -> Seq<Cell>
    decreases OCTANTS - octant,
{
    if octant >= OCTANTS {
        Seq::empty()
    } else {
        rows_from(radius, octant, 1) + octants_from(radius, octant + 1)
    }
}

/// The whole scan of a radius: the origin, then the eight octants in turn,
/// each row by row outwards and each row column by column. Cells on the
/// border between two octants appear in both.
pub open spec fn scan(radius: int) -> Seq<Cell> {
    seq![Cell::origin()] + octants_from(radius, 0)
}

/// What is left of a scan that stands before column `col` of row `row` of an
/// octant.
pub open spec fn scan_from(radius: int, octant: int, row: int, col: int) -> Seq<Cell> {
    if octant >= OCTANTS {
        Seq::empty()
    } else if row > radius {
        octants_from(radius, octant + 1)
    } else {
        row_from(radius, octant, row, col) + rows_from(radius, octant, row + 1) + octants_from(
            radius,
            octant + 1,
        )
    }
}

/// One item of the scan: the offset `(dx, dy)` from the origin and the angles
/// of the cell's near edge, centre and far edge.
pub type CircleItem = (i32, i32, (Angle, Angle, Angle));

/// Whether an item is the one that the scan yields for a cell.
pub open spec fn shows(item: CircleItem, cell: Cell) -> bool {
    &&& item.0 == cell.dx()
    &&& item.1 == cell.dy()
    &&& item.2.0@ == cell.near()
    &&& item.2.1@ == cell.center()
    &&& item.2.2@ == cell.far()
}

/// Before a cell of a row, the rest of the scan is that cell, if it lies
/// inside the circle, and the rest from the next column on.
pub proof fn lemma_scan_from_cell(radius: int, octant: int, row: int, col: int)
    requires
        0 <= octant < OCTANTS,
        1 <= row <= radius,
        0 <= col <= row,
    ensures
        scan_from(radius, octant, row, col) == (if within_circle(radius, row, col) {
            seq![Cell { octant, row, col }]
        } else {
            Seq::empty()
        }) + scan_from(radius, octant, row, col + 1),
{
    let rest = rows_from(radius, octant, row + 1) + octants_from(radius, octant + 1);
    assert(scan_from(radius, octant, row, col + 1) =~= row_from(radius, octant, row, col + 1)
        + rest);
    assert(scan_from(radius, octant, row, col) =~= row_from(radius, octant, row, col) + rest);
    if within_circle(radius, row, col) {
        assert((seq![Cell { octant, row, col }] + row_from(radius, octant, row, col + 1)) + rest
            =~= seq![Cell { octant, row, col }] + (row_from(radius, octant, row, col + 1)
            + rest));
    } else {
        assert(Seq::<Cell>::empty() + scan_from(radius, octant, row, col + 1)
            =~= scan_from(radius, octant, row, col + 1));
    }
}

/// Past the last column of a row, the rest of the scan starts with the next
/// row.
pub proof fn lemma_scan_from_row_end(radius: int, octant: int, row: int, col: int)
    requires
        0 <= octant < OCTANTS,
        1 <= row <= radius,
        col > row,
    ensures
        scan_from(radius, octant, row, col) == scan_from(radius, octant, row + 1, 0),
{
    let later = octants_from(radius, octant + 1);
    assert(row_from(radius, octant, row, col) =~= Seq::<Cell>::empty());
    assert(scan_from(radius, octant, row, col) =~= rows_from(radius, octant, row + 1) + later);
    if row + 1 > radius {
        assert(rows_from(radius, octant, row + 1) + later =~= later);
    } else {
        assert(scan_from(radius, octant, row + 1, 0) =~= rows_from(radius, octant, row + 1)
            + later);
    }
}

/// Past the last row of an octant, the rest of the scan starts with the next
/// octant.
pub proof fn lemma_scan_from_octant_end(radius: int, octant: int, row: int, col: int)
    requires
        0 <= octant < OCTANTS,
        row > radius,
    ensures
        scan_from(radius, octant, row, col) == scan_from(radius, octant + 1, 1, 0),
{
    if octant + 1 < OCTANTS {
        let later = octants_from(radius, octant + 2);
        assert(octants_from(radius, octant + 1) =~= rows_from(radius, octant + 1, 1) + later);
        if 1 > radius {
            assert(rows_from(radius, octant + 1, 1) + later =~= later);
        } else {
            assert(rows_from(radius, octant + 1, 1) =~= row_from(radius, octant + 1, 1, 0)
                + rows_from(radius, octant + 1, 2));
        }
    }
}

/// A scan is the origin and then all that follows from the first cell of the
/// first octant.
pub proof fn lemma_scan_start(radius: int)
    ensures
        scan(radius) == seq![Cell::origin()] + scan_from(radius, 0, 1, 0),
{
    let later = octants_from(radius, 1);
    assert(octants_from(radius, 0) =~= rows_from(radius, 0, 1) + later);
    if 1 > radius {
        assert(rows_from(radius, 0, 1) + later =~= later);
    } else {
        assert(rows_from(radius, 0, 1) =~= row_from(radius, 0, 1, 0) + rows_from(radius, 0, 2));
    }
}

/// The angles of a cell away from the origin are in order and span the
/// cell's share of the octant: the near edge is not below 0, the centre lies
/// strictly between the edges, and the far edge is not above 1. Along a row,
/// each cell begins where the one before it ends.
pub proof fn lemma_angles_in_order(cell: Cell)
    requires
        1 <= cell.row,
        0 <= cell.col <= cell.row,
    ensures
        cell.near().wf() && cell.center().wf() && cell.far().wf(),
        cell.near().lt(cell.center()),
        cell.center().lt(cell.far()),
        !(Fraction { num: 1, den: 1 }).lt(cell.far()),
        (Cell { col: cell.col + 1, ..cell }).near().same(cell.far()),
{
    let den = 2 * (cell.row + 1);
    assert((2 * cell.col) * den < (2 * cell.col + 1) * den && (2 * cell.col + 1) * den < (2
        * cell.col + 2) * den) by (nonlinear_arith)
        requires
            den > 0,
    ;
}

/// Without a positive radius no octant holds a cell.
pub proof fn lemma_octants_empty(radius: int, octant: int)
    requires
        radius < 1,
    ensures
        octants_from(radius, octant) == Seq::<Cell>::empty(),
    decreases OCTANTS - octant,
{
    if octant < OCTANTS {
        lemma_octants_empty(radius, octant + 1);
        assert(rows_from(radius, octant, 1) + octants_from(radius, octant + 1) =~= Seq::<
            Cell,
        >::empty());
    }
}

/// The first cell of every scan is the origin.
pub proof fn lemma_scan_starts_at_origin(radius: int)
    ensures
        scan(radius).len() > 0,
        scan(radius)[0] == Cell::origin(),
{
}

/// The scan of radius 0 is the origin and nothing else.
pub proof fn lemma_scan_of_zero()
    ensures
        scan(0) == seq![Cell::origin()],
{
    lemma_octants_empty(0, 0);
    assert(seq![Cell::origin()] + Seq::<Cell>::empty() =~= seq![Cell::origin()]);
}

/// Every cell of a row of an octant lies in that octant, in that row, and
/// inside the circle.
pub proof fn lemma_row_cells(radius: int, octant: int, row: int, col: int, k: int)
    requires
        0 <= col,
        0 <= k < row_from(radius, octant, row, col).len(),
    ensures
        row_from(radius, octant, row, col)[k].octant == octant,
        row_from(radius, octant, row, col)[k].row == row,
        col <= row_from(radius, octant, row, col)[k].col <= row,
        within_circle(radius, row, row_from(radius, octant, row, col)[k].col),
    decreases row + 1 - col,
{
    if col <= row {
        if within_circle(radius, row, col) {
            if k > 0 {
                lemma_row_cells(radius, octant, row, col + 1, k - 1);
            }
        } else {
            lemma_row_cells(radius, octant, row, col + 1, k);
        }
    }
}

/// Every cell of the rows of an octant lies in that octant, in one of those
/// rows, and inside the circle.
pub proof fn lemma_rows_cells(radius: int, octant: int, row: int, k: int)
    requires
        0 <= k < rows_from(radius, octant, row).len(),
    ensures
        rows_from(radius, octant, row)[k].octant == octant,
        row <= rows_from(radius, octant, row)[k].row <= radius,
        0 <= rows_from(radius, octant, row)[k].col <= rows_from(radius, octant, row)[k].row,
        within_circle(
            radius,
            rows_from(radius, octant, row)[k].row,
            rows_from(radius, octant, row)[k].col,
        ),
    decreases radius + 1 - row,
{
    if row <= radius {
        let first = row_from(radius, octant, row, 0);
        if k < first.len() {
            lemma_row_cells(radius, octant, row, 0, k);
        } else {
            lemma_rows_cells(radius, octant, row + 1, k - first.len());
        }
    }
}

/// The cells of the octants from one on come octant by octant: none lies in
/// an earlier octant than a cell before it. Each is a cell that the scan can
/// yield.
pub proof fn lemma_octants_in_order(radius: int, octant: int, j: int, i: int)
    requires
        0 <= octant,
        0 <= j <= i < octants_from(radius, octant).len(),
    ensures
        octant <= octants_from(radius, octant)[j].octant <= octants_from(radius, octant)[i].octant
            < OCTANTS,
        octants_from(radius, octant)[i].in_scan(radius),
    decreases OCTANTS - octant,
{
    if octant < OCTANTS {
        let first = rows_from(radius, octant, 1);
        if j < first.len() {
            lemma_rows_cells(radius, octant, 1, j);
        } else {
            lemma_octants_in_order(radius, octant + 1, j - first.len(), j - first.len());
        }
        if i < first.len() {
            lemma_rows_cells(radius, octant, 1, i);
        } else if j < first.len() {
            lemma_octants_in_order(radius, octant + 1, i - first.len(), i - first.len());
        } else {
            lemma_octants_in_order(radius, octant + 1, j - first.len(), i - first.len());
        }
    }
}

/// A scan goes through the octants in order, and each of its cells is one
/// that the scan can yield: the origin, or a cell of an octant inside the
/// circle.
pub proof fn lemma_scan_in_order(radius: int, j: int, i: int)
    requires
        0 <= j <= i < scan(radius).len(),
    ensures
        0 <= scan(radius)[j].octant <= scan(radius)[i].octant < OCTANTS,
        scan(radius)[i].in_scan(radius),
{
    if j > 0 {
        lemma_octants_in_order(radius, 0, j - 1, i - 1);
    } else if i > 0 {
        lemma_octants_in_order(radius, 0, i - 1, i - 1);
    }
}

/// A cell of a row that lies inside the circle is among the cells of the row
/// from any column up to its own.
pub proof fn lemma_row_holds(radius: int, cell: Cell, col: int)
    requires
        0 <= col <= cell.col <= cell.row,
        within_circle(radius, cell.row, cell.col),
    ensures
        row_from(radius, cell.octant, cell.row, col).contains(cell),
    decreases cell.row + 1 - col,
{
    let here = Cell { octant: cell.octant, row: cell.row, col };
    let rest = row_from(radius, cell.octant, cell.row, col + 1);
    if col == cell.col {
        assert((seq![here] + rest)[0] == cell);
    } else {
        lemma_row_holds(radius, cell, col + 1);
        let at = choose|at: int| 0 <= at < rest.len() && rest[at] == cell;
        if within_circle(radius, cell.row, col) {
            assert((seq![here] + rest)[at + 1] == cell);
        }
    }
}

/// A cell that a scan can yield in an octant is among the cells of the octant
/// from any row up to its own.
pub proof fn lemma_rows_hold(radius: int, cell: Cell, row: int)
    requires
        row <= cell.row <= radius,
        0 <= cell.col <= cell.row,
        within_circle(radius, cell.row, cell.col),
    ensures
        rows_from(radius, cell.octant, row).contains(cell),
    decreases radius + 1 - row,
{
    let first = row_from(radius, cell.octant, row, 0);
    let rest = rows_from(radius, cell.octant, row + 1);
    if row == cell.row {
        lemma_row_holds(radius, cell, 0);
        let at = choose|at: int| 0 <= at < first.len() && first[at] == cell;
        assert((first + rest)[at] == cell);
    } else {
        lemma_rows_hold(radius, cell, row + 1);
        let at = choose|at: int| 0 <= at < rest.len() && rest[at] == cell;
        assert((first + rest)[first.len() + at] == cell);
    }
}

/// A cell that a scan can yield in an octant is among the cells of the
/// octants from any octant up to its own.
pub proof fn lemma_octants_hold(radius: int, cell: Cell, octant: int)
    requires
        octant <= cell.octant < OCTANTS,
        1 <= cell.row <= radius,
        0 <= cell.col <= cell.row,
        within_circle(radius, cell.row, cell.col),
    ensures
        octants_from(radius, octant).contains(cell),
    decreases OCTANTS - octant,
{
    let first = rows_from(radius, octant, 1);
    let rest = octants_from(radius, octant + 1);
    if octant == cell.octant {
        lemma_rows_hold(radius, cell, 1);
        let at = choose|at: int| 0 <= at < first.len() && first[at] == cell;
        assert((first + rest)[at] == cell);
    } else {
        lemma_octants_hold(radius, cell, octant + 1);
        let at = choose|at: int| 0 <= at < rest.len() && rest[at] == cell;
        assert((first + rest)[first.len() + at] == cell);
    }
}

/// The absolute value.
pub open spec fn magnitude(n: int) -> int {
    if n >= 0 {
        n
    } else {
        -n
    }
}

/// The scan yields every offset inside the widened circle: whatever lies
/// closer to the origin than `radius + 0.33` is the offset of one of its
/// cells.
pub proof fn lemma_scan_covers_circle(radius: int, dx: int, dy: int)
    requires
        0 <= radius,
        10000 * (dx * dx + dy * dy) < (100 * radius + RADIUS_FUDGE_HUNDREDTHS) * (100 * radius
            + RADIUS_FUDGE_HUNDREDTHS),
    ensures
        exists|i: int|
            0 <= i < scan(radius).len() && (#[trigger] scan(radius)[i]).dx() == dx && scan(
                radius,
            )[i].dy() == dy,
{
    if dx == 0 && dy == 0 {
        assert(scan(radius)[0].dx() == 0 && scan(radius)[0].dy() == 0);
    } else {
        let vertical = magnitude(dx) <= magnitude(dy);
        let row = if vertical {
            magnitude(dy)
        } else {
            magnitude(dx)
        };
        let col = if vertical {
            magnitude(dx)
        } else {
            magnitude(dy)
        };
        let quadrant: int = if dx >= 0 && dy >= 0 {
            0
        } else if dx >= 0 {
            1
        } else if dy < 0 {
            2
        } else {
            3
        };
        let octant = 2 * quadrant + if vertical {
            0int
        } else {
            1int
        };
        let cell = Cell { octant, row, col };
        assert(row * row + col * col == dx * dx + dy * dy) by (nonlinear_arith)
            requires
                (row == dx || row == -dx) && (col == dy || col == -dy) || (row == dy || row == -dy)
                    && (col == dx || col == -dx),
        ;
        assert(row <= radius) by (nonlinear_arith)
            requires
                10000 * (row * row + col * col) < (100 * radius + 33) * (100 * radius + 33),
                0 <= radius,
                0 <= row,
        ;
        assert(cell.dx() == dx && cell.dy() == dy);
        lemma_octants_hold(radius, cell, 0);
        let rest = octants_from(radius, 0);
        let at = choose|at: int| 0 <= at < rest.len() && rest[at] == cell;
        assert(scan(radius)[at + 1] == cell);
    }
}

/// Walks the cells around the origin up to a radius, octant by octant, and
/// keeps the list of obstructions met in the octant it is in. The list is
/// emptied whenever the walk enters another octant.
#[derive(Debug)]
pub struct CircleIter<T> {
    /// Obstructions recorded in the current octant: the angles of the near and
    /// far edge of each, and what the user stores with them.
    obstructions: Vec<(Angle, Angle, T)>,
    /// The octant that the walk is in; `OCTANTS` once it is over.
    octant: u8,
    /// Size of the circle.
    radius: i32,
    /// Row of the next cell; 0 until the origin has been yielded.
    r: i64,
    /// Column of the next cell.
    x: i64,
}

/// Whether the cell `row` along and `col` across lies inside the widened
/// circle of `radius`.
fn inside_circle(radius: i32, row: i64, col: i64) -> (b: bool)
    requires
        0 <= col <= row <= radius,
    ensures
        b == within_circle(radius as int, row as int, col as int),
{
    assert(0 <= row * row <= 0x7fff_ffff * 0x7fff_ffff && 0 <= col * col <= 0x7fff_ffff
        * 0x7fff_ffff) by (nonlinear_arith)
        requires
            0 <= col <= row <= 0x7fff_ffff,
    ;
    let squares: u128 = (row as u128) * (row as u128) + (col as u128) * (col as u128);
    let reach: u128 = 100 * (radius as u128) + (RADIUS_FUDGE_HUNDREDTHS as u128);
    assert(0 <= reach * reach <= 214748364733 * 214748364733) by (nonlinear_arith)
        requires
            0 <= reach <= 214748364733,
    ;
    10000 * squares < reach * reach
}

impl<T> CircleIter<T> {
    /// The state is one that a walk can be in.
    pub closed spec fn wf(&self) -> bool {
        &&& self.octant <= OCTANTS
        &&& 0 <= self.radius
        &&& 0 <= self.r <= self.radius + 1
        &&& 0 <= self.x <= self.r + 1
        &&& self.r == 0 ==> self.octant == 0 && self.x == 0
    }

    /// The radius of the circle.
    pub closed spec fn radius(&self) -> int {
        self.radius as int
    }

    /// The octant whose obstructions the list holds.
    pub closed spec fn octant(&self) -> int {
        self.octant as int
    }

    /// The obstructions recorded in the current octant, oldest first.
    pub closed spec fn recorded(&self) -> Seq<(Angle, Angle, T)> {
        self.obstructions@
    }

    /// The cells that the walk has yet to yield, in order.
    pub closed spec fn remaining(&self) -> Seq<Cell> {
        if self.r == 0 {
            scan(self.radius as int)
        } else {
            scan_from(self.radius as int, self.octant as int, self.r as int, self.x as int)
        }
    }

    /// A walk over the circle of `radius`, with nothing yielded yet and no
    /// obstruction recorded.
    pub fn new(radius: i32) -> (iter: Self)
        requires
            0 <= radius,
        ensures
            iter.wf(),
            iter.radius() == radius,
            iter.octant() == 0,
            iter.remaining() == scan(radius as int),
            iter.recorded() == Seq::<(Angle, Angle, T)>::empty(),
    {
        CircleIter { obstructions: Vec::new(), octant: 0, radius, r: 0, x: 0 }
    }

    /// The obstructions recorded in the current octant, oldest first.
    pub fn obstructions(&self) -> (list: &Vec<(Angle, Angle, T)>)
        ensures
            list@ == self.recorded(),
    {
        &self.obstructions
    }

    /// Records an obstruction between the angles `near` and `far` in the
    /// current octant. The walk itself is not moved.
    pub fn record(&mut self, near: Angle, far: Angle, payload: T)
        requires
            old(self).wf(),
        ensures
            final(self).wf(),
            final(self).radius() == old(self).radius(),
            final(self).octant() == old(self).octant(),
            final(self).remaining() == old(self).remaining(),
            final(self).recorded() == old(self).recorded().push((near, far, payload)),
    {
        self.obstructions.push((near, far, payload));
    }

    /// Yields the next cell of the scan, or `None` when the scan is over, and
    /// stays over from then on. The obstruction list is kept while the cell
    /// lies in the octant that the list belongs to, and emptied otherwise.
    pub fn next(&mut self) -> (item: Option<CircleItem>)
        requires
            old(self).wf(),
        ensures
            final(self).wf(),
            final(self).radius() == old(self).radius(),
            match item {
                Some(it) => {
                    &&& old(self).remaining().len() > 0
                    &&& shows(it, old(self).remaining()[0])
                    &&& final(self).remaining() == old(self).remaining().skip(1)
                    &&& final(self).octant() == old(self).remaining()[0].octant
                    &&& final(self).recorded() == if old(self).remaining()[0].octant == old(
                        self,
                    ).octant() {
                        old(self).recorded()
                    } else {
                        Seq::empty()
                    }
                },
                None => {
                    &&& old(self).remaining().len() == 0
                    &&& final(self).remaining().len() == 0
                    &&& final(self).recorded().len() == 0
                },
            },
    {
        if self.r == 0 {
            proof {
                lemma_scan_start(self.radius as int);
            }
            self.r = 1;
            assert(self.remaining() =~= old(self).remaining().skip(1));
            return Some((0, 0, (Angle::zero(), Angle::zero(), Angle::zero())));
        }
        loop
            invariant
                self.wf(),
                self.r >= 1,
                old(self).r >= 1,
                self.radius == old(self).radius,
                self.octant >= old(self).octant,
                self.remaining() == old(self).remaining(),
                self.obstructions@ == if self.octant == old(self).octant {
                    old(self).obstructions@
                } else {
                    Seq::empty()
                },
            decreases OCTANTS - self.octant, self.radius + 1 - self.r, self.r + 1 - self.x,
        {
            if self.octant >= OCTANTS {
                self.obstructions.clear();
                return None;
            }
            if self.r > self.radius as i64 {
                proof {
                    lemma_scan_from_octant_end(
                        self.radius as int,
                        self.octant as int,
                        self.r as int,
                        self.x as int,
                    );
                }
                self.octant = self.octant + 1;
                self.r = 1;
                self.x = 0;
                self.obstructions.clear();
                continue ;
            }
            if self.x > self.r {
                proof {
                    lemma_scan_from_row_end(
                        self.radius as int,
                        self.octant as int,
                        self.r as int,
                        self.x as int,
                    );
                }
                self.x = 0;
                self.r = self.r + 1;
                continue ;
            }
            let row: i64 = self.r;
            let col: i64 = self.x;
            proof {
                lemma_scan_from_cell(
                    self.radius as int,
                    self.octant as int,
                    row as int,
                    col as int,
                );
            }
            self.x = col + 1;
            if inside_circle(self.radius, row, col) {
                let ghost cell = Cell { octant: self.octant as int, row: row as int, col: col as int };
                assert(old(self).remaining()[0] == cell);
                assert(self.remaining() =~= old(self).remaining().skip(1));
                let sign_x: bool = self.octant < 4;
                let sign_y: bool = self.octant < 2 || self.octant >= 6;
                let vertical: bool = self.octant % 2 == 0;
                let (a, b): (i64, i64) = if vertical {
                    (signed(col, sign_x), signed(row, sign_y))
                } else {
                    (signed(row, sign_x), signed(col, sign_y))
                };
                let den: u64 = (2 * (row + 1)) as u64;
                let near = Angle::new((2 * col) as u64, den);
                let center = Angle::new((2 * col + 1) as u64, den);
                let far = Angle::new((2 * col + 2) as u64, den);
                return Some((a as i32, b as i32, (near, center, far)));
            }
            assert(Seq::<Cell>::empty() + self.remaining() =~= self.remaining());
        }
    }
}

/// `value` with the sign of an axis: itself where the axis is positive, its
/// negative otherwise.
fn signed(value: i64, positive: bool) -> (v: i64)
    requires
        0 <= value <= i32::MAX,
    ensures
        v == along(value as int, positive),
{
    if positive {
        value
    } else {
        -value
    }
}

} // verus!
