//! Shadowcasting with partial opacity: cells may dim what lies behind them
//! instead of hiding it, as thin smoke does.
//!
//! Opacity is a whole number of parts of `FULL_OPACITY`: 0 is clear air and
//! `FULL_OPACITY` lets nothing through.

use crate::angle::{angle_contained_in, visible_when, visible_when_spec, Angle, Fraction};
use crate::scan::{Cell, CircleIter};
use vstd::prelude::*;

verus! {

/// The opacity of a cell that lets nothing through.
pub const FULL_OPACITY: u32 = 65_536;

/// How much of the sight each cell takes away.
pub trait PartialObstruction {
    /// The opacity of the cell at `(dx, dy)` from the origin, between 0 and
    /// `FULL_OPACITY`.
    spec fn opacity(&self, dx: int, dy: int) -> int;

    /// Looks up the opacity of the cell at `(dx, dy)` from the origin.
    fn opacity_at(&self, dx: i32, dy: i32) -> (o: u32)
        ensures
            o == self.opacity(dx as int, dy as int),
            o <= FULL_OPACITY,
    ;
}

/// A shadow with the opacity of what throws it: near angle, far angle,
/// opacity.
pub type Veil = (Fraction, Fraction, int);

/// The veils of a list of recorded obstructions, in the same order.
pub open spec fn veils_of(recorded: Seq<(Angle, Angle, u128)>) -> Seq<Veil> {
    Seq::new(recorded.len(), |i: int| (recorded[i].0@, recorded[i].1@, recorded[i].2 as int))
}

/// The larger of two opacities.
pub open spec fn thicker(a: int, b: int) -> int {
    if a >= b {
        a
    } else {
        b
    }
}

/// The opacity that a cell inherits from the veils from index `i` on, given
/// what is still seen of its near edge, centre and far edge after the veils
/// before `i`, and the opacity gathered from them.
///
/// A veil that leaves the centre hidden counts with half its opacity; one that
/// leaves the cell hidden by the rule of binary visibility counts in full. The
/// largest count wins. Nothing is looked at once the opacity is full.
pub open spec fn inherited_from(
    cell: Cell,
    veils: Seq<Veil>,
    i: int,
    near_vis: bool,
    center_vis: bool,
    far_vis: bool,
    opacity: int,
) -> int
    decreases veils.len() - i,
{
    if i < 0 || i >= veils.len() || opacity >= FULL_OPACITY {
        opacity
    } else {
        let veil = veils[i];
        let near_vis = near_vis && !cell.near().inside(veil.0, veil.1);
        let center_vis = center_vis && !cell.center().inside(veil.0, veil.1);
        let far_vis = far_vis && !cell.far().inside(veil.0, veil.1);
        let by_center = if !center_vis {
            thicker(opacity, veil.2 / 2)
        } else {
            opacity
        };
        let by_rule = if !visible_when_spec(center_vis, near_vis, far_vis) {
            thicker(by_center, veil.2)
        } else {
            by_center
        };
        inherited_from(cell, veils, i + 1, near_vis, center_vis, far_vis, by_rule)
    }
}

/// The opacity that a cell inherits from the veils in front of it. It may
/// exceed `FULL_OPACITY`, since veils add up along the line of sight.
pub open spec fn inherited(cell: Cell, veils: Seq<Veil>) -> int {
    inherited_from(cell, veils, 0, true, true, true, 0)
}

/// An opacity cut down to `FULL_OPACITY`.
pub open spec fn capped(opacity: int) -> int {
    if opacity >= FULL_OPACITY {
        FULL_OPACITY as int
    } else {
        opacity
    }
}

/// Partial shadowcasting over a sequence of scan cells, from a list of veils
/// held for an octant. The veils are dropped when a cell lies in another
/// octant. Yields `(dx, dy, opacity)` per cell: the opacity that the cell
/// inherits, capped. What the cell adds of its own dims only what lies behind
/// it.
pub open spec fn cast_partial(
    cells: Seq<Cell>,
    veils: Seq<Veil>,
    octant: int,
    opacity: spec_fn(int, int) -> int,
) -> Seq<(int, int, int)>
    decreases cells.len(),
{
    if cells.len() == 0 {
        Seq::empty()
    } else {
        let cell = cells[0];
        let held = if cell.octant == octant {
            veils
        } else {
            Seq::empty()
        };
        let before = inherited(cell, held);
        let behind = before + opacity(cell.dx(), cell.dy());
        let passed_on = if behind > 0 {
            held.push((cell.near(), cell.far(), behind))
        } else {
            held
        };
        seq![(cell.dx(), cell.dy(), capped(before))] + cast_partial(
            cells.skip(1),
            passed_on,
            cell.octant,
            opacity,
        )
    }
}

/// The opacity of every cell within `radius` of the origin, in scan order.
pub open spec fn partial_shadowcast(radius: int, opacity: spec_fn(int, int) -> int) -> Seq<
    (int, int, int),
> {
    cast_partial(crate::scan::scan(radius), Seq::empty(), 0, opacity)
}

/// The opacity of the cells of an obstruction, as a function of the offset.
pub open spec fn opacity_of_cells<O: PartialObstruction>(obstruct: O) -> spec_fn(int, int) -> int {
    |dx: int, dy: int| obstruct.opacity(dx, dy)
}

/// What is inherited is never below what was gathered before.
pub proof fn lemma_inherited_grows(
    cell: Cell,
    veils: Seq<Veil>,
    i: int,
    near_vis: bool,
    center_vis: bool,
    far_vis: bool,
    opacity: int,
)
    ensures
        inherited_from(cell, veils, i, near_vis, center_vis, far_vis, opacity) >= opacity,
    decreases veils.len() - i,
{
    if !(i < 0 || i >= veils.len() || opacity >= FULL_OPACITY) {
        let veil = veils[i];
        let near_vis = near_vis && !cell.near().inside(veil.0, veil.1);
        let center_vis = center_vis && !cell.center().inside(veil.0, veil.1);
        let far_vis = far_vis && !cell.far().inside(veil.0, veil.1);
        let by_center = if !center_vis {
            thicker(opacity, veil.2 / 2)
        } else {
            opacity
        };
        let by_rule = if !visible_when_spec(center_vis, near_vis, far_vis) {
            thicker(by_center, veil.2)
        } else {
            by_center
        };
        lemma_inherited_grows(cell, veils, i + 1, near_vis, center_vis, far_vis, by_rule);
    }
}

/// The half that a veil counts for while only the centre is hidden never
/// decides: a hidden centre hides the cell, and then the veil counts in full.
pub proof fn lemma_half_never_decides(veil: Veil, opacity: int, center_vis: bool, near_vis: bool, far_vis: bool)
    requires
        0 <= opacity,
        0 <= veil.2,
    ensures
        ({
            let by_center = if !center_vis {
                thicker(opacity, veil.2 / 2)
            } else {
                opacity
            };
            if !visible_when_spec(center_vis, near_vis, far_vis) {
                thicker(by_center, veil.2)
            } else {
                by_center
            }
        }) == if !visible_when_spec(center_vis, near_vis, far_vis) {
            thicker(opacity, veil.2)
        } else {
            opacity
        },
{
}

/// A partial cast yields one item per cell, and the opacity of each lies
/// between 0 and `FULL_OPACITY`, whatever the veils and the cells' own
/// opacities are.
pub proof fn lemma_cast_partial_bounded(
    cells: Seq<Cell>,
    veils: Seq<Veil>,
    octant: int,
    opacity: spec_fn(int, int) -> int,
    i: int,
)
    requires
        0 <= i < cells.len(),
    ensures
        cast_partial(cells, veils, octant, opacity).len() == cells.len(),
        cast_partial(cells, veils, octant, opacity)[i].0 == cells[i].dx(),
        cast_partial(cells, veils, octant, opacity)[i].1 == cells[i].dy(),
        0 <= cast_partial(cells, veils, octant, opacity)[i].2 <= FULL_OPACITY,
    decreases cells.len(),
{
    let cell = cells[0];
    let held = if cell.octant == octant {
        veils
    } else {
        Seq::empty()
    };
    let before = inherited(cell, held);
    let behind = before + opacity(cell.dx(), cell.dy());
    let passed_on = if behind > 0 {
        held.push((cell.near(), cell.far(), behind))
    } else {
        held
    };
    lemma_cast_partial_len(cells.skip(1), passed_on, cell.octant, opacity);
    if i == 0 {
        lemma_inherited_grows(cell, held, 0, true, true, true, 0);
    } else {
        lemma_cast_partial_bounded(cells.skip(1), passed_on, cell.octant, opacity, i - 1);
    }
}

/// A partial cast yields as many items as there are cells.
pub proof fn lemma_cast_partial_len(
    cells: Seq<Cell>,
    veils: Seq<Veil>,
    octant: int,
    opacity: spec_fn(int, int) -> int,
)
    ensures
        cast_partial(cells, veils, octant, opacity).len() == cells.len(),
    decreases cells.len(),
{
    if cells.len() > 0 {
        let cell = cells[0];
        let held = if cell.octant == octant {
            veils
        } else {
            Seq::empty()
        };
        let behind = inherited(cell, held) + opacity(cell.dx(), cell.dy());
        let passed_on = if behind > 0 {
            held.push((cell.near(), cell.far(), behind))
        } else {
            held
        };
        lemma_cast_partial_len(cells.skip(1), passed_on, cell.octant, opacity);
    }
}

/// Partial shadowcasting never yields an opacity below 0 or above
/// `FULL_OPACITY`, and its first item is the origin with opacity 0.
pub proof fn lemma_opacity_bounded(radius: int, opacity: spec_fn(int, int) -> int, i: int)
    requires
        0 <= i < partial_shadowcast(radius, opacity).len(),
    ensures
        0 <= partial_shadowcast(radius, opacity)[i].2 <= FULL_OPACITY,
        partial_shadowcast(radius, opacity)[0] == (0int, 0int, 0int),
{
    let cells = crate::scan::scan(radius);
    lemma_cast_partial_len(cells, Seq::empty(), 0, opacity);
    lemma_cast_partial_bounded(cells, Seq::empty(), 0, opacity, i);
    assert(cells[0] == Cell::origin());
}

/// Each recorded opacity is at most `FULL_OPACITY` for every obstruction
/// recorded up to and including it.
pub open spec fn opacities_bounded(recorded: Seq<(Angle, Angle, u128)>) -> bool {
    forall|k: int| 0 <= k < recorded.len() ==> (#[trigger] recorded[k]).2 <= (k + 1) * FULL_OPACITY
}

/// Walks a circular region and yields, for each cell, its offset from the
/// origin and how opaque the way to it is. The origin comes first, with
/// opacity 0.
pub struct RPAPartialShadowcasting<F> {
    obstruct: F,
    iter: CircleIter<u128>,
}

impl<F: PartialObstruction> RPAPartialShadowcasting<F> {
    /// The walk is in a state it can be in.
    pub closed spec fn wf(&self) -> bool {
        &&& self.iter.wf()
        &&& opacities_bounded(self.iter.recorded())
    }

    /// What tells the opacity of each cell.
    pub closed spec fn obstruction(&self) -> F {
        self.obstruct
    }

    /// The radius of the region.
    pub closed spec fn radius(&self) -> int {
        self.iter.radius()
    }

    /// What is yet to be yielded, in order: `(dx, dy, opacity)` per cell.
    pub closed spec fn remaining(&self) -> Seq<(int, int, int)> {
        cast_partial(
            self.iter.remaining(),
            veils_of(self.iter.recorded()),
            self.iter.octant(),
            opacity_of_cells(self.obstruct),
        )
    }

    /// Partial shadowcasting over the circle of `radius`, where `obstruct`
    /// tells the opacity of each cell.
    pub fn new(radius: i32, obstruct: F) -> (caster: Self)
        requires
            0 <= radius,
        ensures
            caster.wf(),
            caster.radius() == radius,
            caster.obstruction() == obstruct,
            caster.remaining() == partial_shadowcast(radius as int, opacity_of_cells(obstruct)),
    {
        let caster = RPAPartialShadowcasting { obstruct, iter: CircleIter::new(radius) };
        assert(veils_of(caster.iter.recorded()) =~= Seq::<Veil>::empty());
        caster
    }

    /// Yields the next cell with the opacity of the way to it, or `None` when
    /// the region is exhausted. The opacity never exceeds `FULL_OPACITY`.
    pub fn next(&mut self) -> (item: Option<(i32, i32, u32)>)
        requires
            old(self).wf(),
        ensures
            final(self).wf(),
            final(self).radius() == old(self).radius(),
            final(self).obstruction() == old(self).obstruction(),
            match item {
                Some(it) => {
                    &&& old(self).remaining().len() > 0
                    &&& (it.0 as int, it.1 as int, it.2 as int) == old(self).remaining()[0]
                    &&& final(self).remaining() == old(self).remaining().skip(1)
                    &&& it.2 <= FULL_OPACITY
                },
                None => {
                    &&& old(self).remaining().len() == 0
                    &&& final(self).remaining().len() == 0
                },
            },
    {
        let ghost cells = self.iter.remaining();
        let (a, b, (near, center, far)) = match self.iter.next() {
            None => {
                return None;
            },
            Some(x) => x,
        };
        let ghost cell = cells[0];
        let ghost held = veils_of(self.iter.recorded());
        assert(held =~= if cell.octant == old(self).iter.octant() {
            veils_of(old(self).iter.recorded())
        } else {
            Seq::empty()
        });

        let mut opacity: u128 = 0;
        let mut near_vis = true;
        let mut center_vis = true;
        let mut far_vis = true;
        let obstructions = self.iter.obstructions();
        let mut i: usize = 0;
        while i < obstructions.len() && opacity < FULL_OPACITY as u128
            invariant
                i <= obstructions.len(),
                obstructions@ == self.iter.recorded(),
                opacities_bounded(obstructions@),
                held == veils_of(obstructions@),
                near@ == cell.near(),
                center@ == cell.center(),
                far@ == cell.far(),
                opacity <= i * FULL_OPACITY,
                inherited(cell, held) == inherited_from(
                    cell,
                    held,
                    i as int,
                    near_vis,
                    center_vis,
                    far_vis,
                    opacity as int,
                ),
            decreases obstructions.len() - i,
        {
            let near_obs = obstructions[i].0;
            let far_obs = obstructions[i].1;
            let opc_obs: u128 = obstructions[i].2;
            assert(held[i as int] == (near_obs@, far_obs@, opc_obs as int));
            near_vis = near_vis && !angle_contained_in(&near, &near_obs, &far_obs);
            center_vis = center_vis && !angle_contained_in(&center, &near_obs, &far_obs);
            far_vis = far_vis && !angle_contained_in(&far, &near_obs, &far_obs);
            if !center_vis {
                opacity = larger(opacity, opc_obs / 2);
            }
            if !visible_when(center_vis, near_vis, far_vis) {
                opacity = larger(opacity, opc_obs);
            }
            i = i + 1;
        }
        let opc_here: u128 = opacity + self.obstruct.opacity_at(a, b) as u128;
        if opc_here > 0 {
            proof {
                assert(veils_of(self.iter.recorded().push((near, far, opc_here))) =~= held.push(
                    (near@, far@, opc_here as int),
                ));
            }
            self.iter.record(near, far, opc_here);
        }
        assert(self.remaining() =~= old(self).remaining().skip(1));
        let shown: u32 = if opacity >= FULL_OPACITY as u128 {
            FULL_OPACITY
        } else {
            opacity as u32
        };
        Some((a, b, shown))
    }
}

/// The larger of two opacities.
fn larger(a: u128, b: u128) -> (m: u128)
    ensures
        m == thicker(a as int, b as int),
{
    if a >= b {
        a
    } else {
        b
    }
}

/// The opacity that a list gives to the cell at `(dx, dy)`, looking from index
/// `from` on: that of the first entry for the cell, cut down to
/// `FULL_OPACITY`, and 0 if there is none.
pub open spec fn listed_opacity(list: Seq<(i32, i32, u32)>, from: int, dx: int, dy: int) -> int
    decreases list.len() - from,
{
    if from < 0 || from >= list.len() {
        0
    } else if list[from].0 == dx && list[from].1 == dy {
        capped(list[from].2 as int)
    } else {
        listed_opacity(list, from + 1, dx, dy)
    }
}

/// An obstruction given as a list of cells with their opacity. A cell that is
/// not listed is clear; of a cell listed twice the first entry counts.
pub struct CellOpacities {
    cells: Vec<(i32, i32, u32)>,
}

impl CellOpacities {
    /// The listed cells: offset along x, offset along y, opacity.
    pub closed spec fn cells(&self) -> Seq<(i32, i32, u32)> {
        self.cells@
    }

    /// The obstruction made of the listed cells.
    pub fn new(cells: Vec<(i32, i32, u32)>) -> (layout: Self)
        ensures
            layout.cells() == cells@,
    {
        CellOpacities { cells }
    }
}

impl PartialObstruction for CellOpacities {
    open spec fn opacity(&self, dx: int, dy: int) -> int {
        listed_opacity(self.cells(), 0, dx, dy)
    }

    fn opacity_at(&self, dx: i32, dy: i32) -> (o: u32) {
        let mut i: usize = 0;
        while i < self.cells.len()
            invariant
                i <= self.cells@.len(),
                listed_opacity(self.cells@, 0, dx as int, dy as int) == listed_opacity(
                    self.cells@,
                    i as int,
                    dx as int,
                    dy as int,
                ),
            decreases self.cells@.len() - i,
        {
            if self.cells[i].0 == dx && self.cells[i].1 == dy {
                let listed: u32 = self.cells[i].2;
                return if listed >= FULL_OPACITY {
                    FULL_OPACITY
                } else {
                    listed
                };
            }
            i = i + 1;
        }
        0
    }
}

} // verus!
