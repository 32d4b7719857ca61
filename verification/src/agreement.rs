//! Where the two kinds of shadowcasting meet: when every cell is either clear
//! or fully opaque, partial shadowcasting sees exactly what binary
//! shadowcasting sees.

use crate::angle::visible_when_spec;
use crate::partial::{cast_partial, inherited_from, partial_shadowcast, Veil, FULL_OPACITY};
use crate::scan::Cell;
use crate::shadowcasting::{cast, cell_visible, clear_of_first, shadowcast, throws_shadow, Shadow};
use vstd::prelude::*;

verus! {

/// Every cell is either clear or lets nothing through.
pub open spec fn all_or_nothing(opacity: spec_fn(int, int) -> int) -> bool {
    forall|dx: int, dy: int| #[trigger] opacity(dx, dy) == 0 || opacity(dx, dy) >= FULL_OPACITY
}

/// The cells that let nothing through.
pub open spec fn walls_of(opacity: spec_fn(int, int) -> int) -> spec_fn(int, int) -> bool {
    |dx: int, dy: int| opacity(dx, dy) >= FULL_OPACITY
}

/// The veils are the shadows, one for one, and each lets nothing through.
pub open spec fn solid(veils: Seq<Veil>, shadows: Seq<Shadow>) -> bool {
    &&& veils.len() == shadows.len()
    &&& forall|k: int|
        0 <= k < veils.len() ==> (#[trigger] veils[k]).0 == shadows[k].0 && veils[k].1
            == shadows[k].1 && veils[k].2 >= FULL_OPACITY
}

/// Under veils that let nothing through, a cell inherits nothing while it is
/// visible under the same shadows, and full opacity or more once it is not.
pub proof fn lemma_inherited_from_solid(
    cell: Cell,
    veils: Seq<Veil>,
    shadows: Seq<Shadow>,
    i: int,
    near_vis: bool,
    center_vis: bool,
    far_vis: bool,
)
    requires
        solid(veils, shadows),
        0 <= i <= veils.len(),
        near_vis == clear_of_first(cell.near(), shadows, i),
        center_vis == clear_of_first(cell.center(), shadows, i),
        far_vis == clear_of_first(cell.far(), shadows, i),
        visible_when_spec(center_vis, near_vis, far_vis),
    ensures
        cell_visible(cell, shadows) ==> inherited_from(
            cell,
            veils,
            i,
            near_vis,
            center_vis,
            far_vis,
            0,
        ) == 0,
        !cell_visible(cell, shadows) ==> inherited_from(
            cell,
            veils,
            i,
            near_vis,
            center_vis,
            far_vis,
            0,
        ) >= FULL_OPACITY,
    decreases veils.len() - i,
{
    if i < veils.len() {
        let veil = veils[i];
        assert(veil.0 == shadows[i].0 && veil.1 == shadows[i].1 && veil.2 >= FULL_OPACITY);
        let near_next = near_vis && !cell.near().inside(veil.0, veil.1);
        let center_next = center_vis && !cell.center().inside(veil.0, veil.1);
        let far_next = far_vis && !cell.far().inside(veil.0, veil.1);
        assert(near_next == clear_of_first(cell.near(), shadows, i + 1));
        assert(center_next == clear_of_first(cell.center(), shadows, i + 1));
        assert(far_next == clear_of_first(cell.far(), shadows, i + 1));
        if visible_when_spec(center_next, near_next, far_next) {
            lemma_inherited_from_solid(
                cell,
                veils,
                shadows,
                i + 1,
                near_next,
                center_next,
                far_next,
            );
        } else {
            let by_center = if !center_next {
                crate::partial::thicker(0, veil.2 / 2)
            } else {
                0
            };
            let by_rule = crate::partial::thicker(by_center, veil.2);
            assert(inherited_from(cell, veils, i + 1, near_next, center_next, far_next, by_rule)
                == by_rule);
            assert(!cell_visible(cell, shadows));
        }
    }
}

/// Item by item, a partial cast over cells that are clear or fully opaque
/// gives opacity 0 where the binary cast over the fully opaque cells sees the
/// cell, and full opacity where it does not.
pub proof fn lemma_casts_agree(
    cells: Seq<Cell>,
    veils: Seq<Veil>,
    shadows: Seq<Shadow>,
    octant: int,
    opacity: spec_fn(int, int) -> int,
    i: int,
)
    requires
        all_or_nothing(opacity),
        solid(veils, shadows),
        0 <= i < cells.len(),
    ensures
        cast_partial(cells, veils, octant, opacity).len() == cells.len(),
        cast(cells, shadows, octant, walls_of(opacity)).len() == cells.len(),
        cast_partial(cells, veils, octant, opacity)[i].2 == if cast(
            cells,
            shadows,
            octant,
            walls_of(opacity),
        )[i].2 {
            0int
        } else {
            FULL_OPACITY as int
        },
    decreases cells.len(),
{
    let opaque = walls_of(opacity);
    let cell = cells[0];
    let held_veils = if cell.octant == octant {
        veils
    } else {
        Seq::empty()
    };
    let held_shadows = if cell.octant == octant {
        shadows
    } else {
        Seq::empty()
    };
    assert(solid(held_veils, held_shadows));
    lemma_inherited_from_solid(cell, held_veils, held_shadows, 0, true, true, true);
    let before = inherited_from(cell, held_veils, 0, true, true, true, 0);
    let visible = cell_visible(cell, held_shadows);
    let own = opacity(cell.dx(), cell.dy());
    assert(own == 0 || own >= FULL_OPACITY);
    let behind = before + own;
    let passed_veils = if behind > 0 {
        held_veils.push((cell.near(), cell.far(), behind))
    } else {
        held_veils
    };
    let passed_shadows = if throws_shadow(cell, visible, opaque) {
        held_shadows.push((cell.near(), cell.far()))
    } else {
        held_shadows
    };
    assert(solid(passed_veils, passed_shadows));
    crate::partial::lemma_cast_partial_len(cells.skip(1), passed_veils, cell.octant, opacity);
    crate::occlusion::lemma_cast_len(cells.skip(1), passed_shadows, cell.octant, opaque);
    if i > 0 {
        lemma_casts_agree(cells.skip(1), passed_veils, passed_shadows, cell.octant, opacity, i - 1);
    }
}

/// When every cell is either clear or fully opaque, partial shadowcasting
/// yields opacity 0 for exactly the cells that binary shadowcasting over the
/// opaque cells finds visible, and full opacity for all others.
pub proof fn lemma_partial_agrees_with_binary(
    radius: int,
    opacity: spec_fn(int, int) -> int,
    i: int,
)
    requires
        all_or_nothing(opacity),
        0 <= i < crate::scan::scan(radius).len(),
    ensures
        partial_shadowcast(radius, opacity).len() == shadowcast(radius, walls_of(opacity)).len(),
        partial_shadowcast(radius, opacity)[i].2 == if shadowcast(radius, walls_of(opacity))[i].2 {
            0int
        } else {
            FULL_OPACITY as int
        },
{
    lemma_casts_agree(crate::scan::scan(radius), Seq::empty(), Seq::empty(), 0, opacity, i);
}

} // verus!
