//! What shadowcasting guarantees: the origin is seen, an octant without
//! obstacles is seen whole, and a cell that throws a shadow hides every later
//! cell of its octant whose centre falls into that shadow.

use crate::scan::Cell;
use crate::shadowcasting::{cast, cell_visible, shadowcast, throws_shadow, unobstructed, Shadow};
use vstd::prelude::*;

verus! {

/// The shadows held when cell `i` of `cells` is examined: those passed on by
/// the cell before it, or none if that cell lies in another octant. For the
/// first cell these are the shadows that the cast starts with.
pub open spec fn held_at(
    cells: Seq<Cell>,
    shadows: Seq<Shadow>,
    octant: int,
    opaque: spec_fn(int, int) -> bool,
    i: int,
) -> Seq<Shadow>
    decreases i,
{
    if i <= 0 {
        if cells[0].octant == octant {
            shadows
        } else {
            Seq::empty()
        }
    } else {
        let held = held_at(cells, shadows, octant, opaque, i - 1);
        let cell = cells[i - 1];
        let passed_on = if throws_shadow(cell, cell_visible(cell, held), opaque) {
            held.push((cell.near(), cell.far()))
        } else {
            held
        };
        if cells[i].octant == cell.octant {
            passed_on
        } else {
            Seq::empty()
        }
    }
}

/// Casting over all cells but the first, from what the first passes on, holds
/// at each cell what the cast over all cells holds one cell later.
proof fn lemma_held_at_shift(
    cells: Seq<Cell>,
    shadows: Seq<Shadow>,
    octant: int,
    opaque: spec_fn(int, int) -> bool,
    i: int,
)
    requires
        1 <= i < cells.len(),
    ensures
        ({
            let first = cells[0];
            let held = held_at(cells, shadows, octant, opaque, 0);
            let passed_on = if throws_shadow(first, cell_visible(first, held), opaque) {
                held.push((first.near(), first.far()))
            } else {
                held
            };
            held_at(cells.skip(1), passed_on, first.octant, opaque, i - 1)
        }) == held_at(cells, shadows, octant, opaque, i),
    decreases i,
{
    if i > 1 {
        lemma_held_at_shift(cells, shadows, octant, opaque, i - 1);
    }
}

/// A cast yields one item per cell, in order: the cell's offset, and whether
/// the cell is visible under the shadows held when it is examined.
pub proof fn lemma_cast_item(
    cells: Seq<Cell>,
    shadows: Seq<Shadow>,
    octant: int,
    opaque: spec_fn(int, int) -> bool,
    i: int,
)
    requires
        0 <= i < cells.len(),
    ensures
        cast(cells, shadows, octant, opaque).len() == cells.len(),
        cast(cells, shadows, octant, opaque)[i] == (
            cells[i].dx(),
            cells[i].dy(),
            cell_visible(cells[i], held_at(cells, shadows, octant, opaque, i)),
        ),
    decreases cells.len(),
{
    lemma_cast_len(cells, shadows, octant, opaque);
    if i > 0 {
        let first = cells[0];
        let held = held_at(cells, shadows, octant, opaque, 0);
        let passed_on = if throws_shadow(first, cell_visible(first, held), opaque) {
            held.push((first.near(), first.far()))
        } else {
            held
        };
        lemma_cast_item(cells.skip(1), passed_on, first.octant, opaque, i - 1);
        lemma_held_at_shift(cells, shadows, octant, opaque, i);
    }
}

/// A cast yields as many items as there are cells.
pub proof fn lemma_cast_len(
    cells: Seq<Cell>,
    shadows: Seq<Shadow>,
    octant: int,
    opaque: spec_fn(int, int) -> bool,
)
    ensures
        cast(cells, shadows, octant, opaque).len() == cells.len(),
    decreases cells.len(),
{
    if cells.len() > 0 {
        let first = cells[0];
        let held = held_at(cells, shadows, octant, opaque, 0);
        let passed_on = if throws_shadow(first, cell_visible(first, held), opaque) {
            held.push((first.near(), first.far()))
        } else {
            held
        };
        lemma_cast_len(cells.skip(1), passed_on, first.octant, opaque);
    }
}

/// The first item of every shadowcast is the origin, and it is visible,
/// whatever is opaque.
pub proof fn lemma_origin_first_and_visible(radius: int, opaque: spec_fn(int, int) -> bool)
    ensures
        shadowcast(radius, opaque).len() > 0,
        shadowcast(radius, opaque)[0] == (0int, 0int, true),
{
    let cells = crate::scan::scan(radius);
    assert(cells[0] == Cell::origin());
    lemma_cast_item(cells, Seq::empty(), 0, opaque, 0);
}

/// Where nothing is opaque among the cells of an octant up to a cell, no
/// shadow is held at that cell, and the cell is visible.
pub proof fn lemma_clear_octant_is_seen(
    cells: Seq<Cell>,
    octant: int,
    opaque: spec_fn(int, int) -> bool,
    i: int,
)
    requires
        0 <= i < cells.len(),
        forall|j: int|
            0 <= j <= i && cells[j].octant == cells[i].octant ==> !opaque(
                (#[trigger] cells[j]).dx(),
                cells[j].dy(),
            ),
    ensures
        held_at(cells, Seq::empty(), octant, opaque, i) == Seq::<Shadow>::empty(),
        cast(cells, Seq::empty(), octant, opaque)[i].2,
    decreases i,
{
    lemma_cast_item(cells, Seq::empty(), octant, opaque, i);
    if i > 0 && cells[i].octant == cells[i - 1].octant {
        lemma_clear_octant_is_seen(cells, octant, opaque, i - 1);
        lemma_cast_item(cells, Seq::empty(), octant, opaque, i - 1);
        assert(!opaque(cells[i - 1].dx(), cells[i - 1].dy()));
    }
}

/// A shadow thrown by a cell is still held at every later cell up to which
/// the octant does not change.
pub proof fn lemma_shadow_persists(
    cells: Seq<Cell>,
    shadows: Seq<Shadow>,
    octant: int,
    opaque: spec_fn(int, int) -> bool,
    j: int,
    i: int,
)
    requires
        0 <= j < i < cells.len(),
        forall|k: int| j <= k <= i ==> (#[trigger] cells[k]).octant == cells[j].octant,
        throws_shadow(
            cells[j],
            cell_visible(cells[j], held_at(cells, shadows, octant, opaque, j)),
            opaque,
        ),
    ensures
        held_at(cells, shadows, octant, opaque, i).contains((cells[j].near(), cells[j].far())),
    decreases i,
{
    let shadow = (cells[j].near(), cells[j].far());
    let held = held_at(cells, shadows, octant, opaque, i - 1);
    assert(cells[i].octant == cells[j].octant);
    assert(cells[i - 1].octant == cells[j].octant);
    if i == j + 1 {
        assert(held.push(shadow)[held.len() as int] == shadow);
    } else {
        lemma_shadow_persists(cells, shadows, octant, opaque, j, i - 1);
        let at = choose|at: int| 0 <= at < held.len() && held[at] == shadow;
        let here = (cells[i - 1].near(), cells[i - 1].far());
        assert(held.push(here)[at] == shadow);
    }
}

/// A cell that throws a shadow hides every later cell of its octant whose
/// centre lies strictly inside that shadow.
pub proof fn lemma_shadow_hides(
    cells: Seq<Cell>,
    shadows: Seq<Shadow>,
    octant: int,
    opaque: spec_fn(int, int) -> bool,
    j: int,
    i: int,
)
    requires
        0 <= j < i < cells.len(),
        forall|k: int| j <= k <= i ==> (#[trigger] cells[k]).octant == cells[j].octant,
        opaque(cells[j].dx(), cells[j].dy()) || !cast(cells, shadows, octant, opaque)[j].2,
        cells[i].center().inside(cells[j].near(), cells[j].far()),
    ensures
        !cast(cells, shadows, octant, opaque)[i].2,
{
    lemma_cast_item(cells, shadows, octant, opaque, j);
    lemma_cast_item(cells, shadows, octant, opaque, i);
    lemma_shadow_persists(cells, shadows, octant, opaque, j, i);
    let held = held_at(cells, shadows, octant, opaque, i);
    let shadow = (cells[j].near(), cells[j].far());
    let at = choose|at: int| 0 <= at < held.len() && held[at] == shadow;
    assert(!unobstructed(cells[i].center(), held)) by {
        assert(cells[i].center().inside(held[at].0, held[at].1));
    }
}

/// In a shadowcast, an opaque cell, and any cell that is not visible, hides
/// every later cell of the same octant whose centre lies strictly between its
/// near and its far angle.
pub proof fn lemma_occlusion(radius: int, opaque: spec_fn(int, int) -> bool, j: int, i: int)
    requires
        0 <= j < i < crate::scan::scan(radius).len(),
        crate::scan::scan(radius)[j].octant == crate::scan::scan(radius)[i].octant,
        opaque(crate::scan::scan(radius)[j].dx(), crate::scan::scan(radius)[j].dy())
            || !shadowcast(radius, opaque)[j].2,
        crate::scan::scan(radius)[i].center().inside(
            crate::scan::scan(radius)[j].near(),
            crate::scan::scan(radius)[j].far(),
        ),
    ensures
        !shadowcast(radius, opaque)[i].2,
{
    let cells = crate::scan::scan(radius);
    assert forall|k: int| j <= k <= i implies (#[trigger] cells[k]).octant == cells[j].octant by {
        crate::scan::lemma_scan_in_order(radius, j, k);
        crate::scan::lemma_scan_in_order(radius, k, i);
    }
    lemma_shadow_hides(cells, Seq::empty(), 0, opaque, j, i);
}

/// In a shadowcast, every cell of an octant in which nothing is opaque is
/// visible, whatever stands in the other octants.
pub proof fn lemma_clear_octant(radius: int, opaque: spec_fn(int, int) -> bool, i: int)
    requires
        0 <= i < crate::scan::scan(radius).len(),
        forall|j: int|
            0 <= j < crate::scan::scan(radius).len() && crate::scan::scan(radius)[j].octant
                == crate::scan::scan(radius)[i].octant ==> !opaque(
                (#[trigger] crate::scan::scan(radius)[j]).dx(),
                crate::scan::scan(radius)[j].dy(),
            ),
    ensures
        shadowcast(radius, opaque)[i].2,
{
    lemma_clear_octant_is_seen(crate::scan::scan(radius), 0, opaque, i);
}

} // verus!
