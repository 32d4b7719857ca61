//! Restrictive precise angle shadowcasting: which cells of the circular scan
//! are seen from the origin, given which cells block sight.

use crate::angle::{angle_contained_in, visible_when, visible_when_spec, Angle, Fraction};
use crate::scan::{Cell, CircleIter};
use vstd::prelude::*;

verus! {

/// Cells that were found not visible count as obstacles for the cells behind
/// them.
pub const NONVIS_OCCLUDE: bool = true;

/// The one thing shadowcasting asks of its surroundings: whether the cell at
/// an offset from the origin blocks sight.
pub trait Obstruction {
    /// Whether the cell at `(dx, dy)` from the origin is opaque.
    spec fn opaque(&self, dx: int, dy: int) -> bool;

    /// Looks up whether the cell at `(dx, dy)` from the origin is opaque.
    fn obstructs(&self, dx: i32, dy: i32) -> (b: bool)
        ensures
            b == self.opaque(dx as int, dy as int),
    ;
}

/// The shadow that an obstruction throws: all angles strictly between its
/// near and its far edge.
pub type Shadow = (Fraction, Fraction);

/// The shadows of a list of recorded obstructions, in the same order.
pub open spec fn shadows_of<T>(recorded: Seq<(Angle, Angle, T)>) -> Seq<Shadow> {
    Seq::new(recorded.len(), |i: int| (recorded[i].0@, recorded[i].1@))
}

/// None of the first `count` shadows holds the angle.
pub open spec fn clear_of_first(angle: Fraction, shadows: Seq<Shadow>, count: int) -> bool {
    forall|i: int| 0 <= i < count && i < shadows.len() ==> !angle.inside(shadows[i].0, shadows[i].1)
}

/// No shadow holds the angle. An angle on the edge of a shadow is not in it.
pub open spec fn unobstructed(angle: Fraction, shadows: Seq<Shadow>) -> bool {
    clear_of_first(angle, shadows, shadows.len() as int)
}

/// A cell is visible under a list of shadows when its centre is unobstructed
/// and its near or its far edge is.
pub open spec fn cell_visible(cell: Cell, shadows: Seq<Shadow>) -> bool {
    visible_when_spec(
        unobstructed(cell.center(), shadows),
        unobstructed(cell.near(), shadows),
        unobstructed(cell.far(), shadows),
    )
}

/// Whether a cell throws a shadow of its own on what lies behind it: an opaque
/// cell does, and with `NONVIS_OCCLUDE` a cell that is not visible does too.
pub open spec fn throws_shadow(cell: Cell, visible: bool, opaque: spec_fn(int, int) -> bool) -> bool {
    (NONVIS_OCCLUDE && !visible) || opaque(cell.dx(), cell.dy())
}

/// The opaque cells of an obstruction, as a function of the offset.
pub open spec fn opaque_cells<O: Obstruction>(obstruct: O) -> spec_fn(int, int) -> bool {
    |dx: int, dy: int| obstruct.opaque(dx, dy)
}

/// Shadowcasting over a sequence of scan cells, from a list of shadows held
/// for an octant. The shadows are dropped when a cell lies in another octant.
/// Yields `(dx, dy, visible)` for each cell, in the same order.
pub open spec fn cast(
    cells: Seq<Cell>,
    shadows: Seq<Shadow>,
    octant: int,
    opaque: spec_fn(int, int) -> bool,
) -> Seq<(int, int, bool)>
    decreases cells.len(),
{
    if cells.len() == 0 {
        Seq::empty()
    } else {
        let cell = cells[0];
        let held = if cell.octant == octant {
            shadows
        } else {
            Seq::empty()
        };
        let visible = cell_visible(cell, held);
        let passed_on = if throws_shadow(cell, visible, opaque) {
            held.push((cell.near(), cell.far()))
        } else {
            held
        };
        seq![(cell.dx(), cell.dy(), visible)] + cast(
            cells.skip(1),
            passed_on,
            cell.octant,
            opaque,
        )
    }
}

/// The visibility of every cell within `radius` of the origin, in scan order.
pub open spec fn shadowcast(radius: int, opaque: spec_fn(int, int) -> bool) -> Seq<
    (int, int, bool),
> {
    cast(crate::scan::scan(radius), Seq::empty(), 0, opaque)
}

/// Recording one more obstruction adds its shadow at the end.
pub proof fn lemma_shadows_of_push<T>(recorded: Seq<(Angle, Angle, T)>, near: Angle, far: Angle, payload: T)
    ensures
        shadows_of(recorded.push((near, far, payload))) == shadows_of(recorded).push(
            (near@, far@),
        ),
{
    assert(shadows_of(recorded.push((near, far, payload))) =~= shadows_of(recorded).push(
        (near@, far@),
    ));
}

/// Walks a circular region and yields, for each cell, its offset from the
/// origin and whether it is visible from there. The origin comes first and is
/// always visible.
pub struct RPAShadowcasting<F> {
    obstruct: F,
    iter: CircleIter<()>,
}

impl<F: Obstruction> RPAShadowcasting<F> {
    /// The walk is in a state it can be in.
    pub closed spec fn wf(&self) -> bool {
        self.iter.wf()
    }

    /// What decides which cells are opaque.
    pub closed spec fn obstruction(&self) -> F {
        self.obstruct
    }

    /// The radius of the region.
    pub closed spec fn radius(&self) -> int {
        self.iter.radius()
    }

    /// What is yet to be yielded, in order: `(dx, dy, visible)` per cell.
    pub closed spec fn remaining(&self) -> Seq<(int, int, bool)> {
        cast(
            self.iter.remaining(),
            shadows_of(self.iter.recorded()),
            self.iter.octant(),
            opaque_cells(self.obstruct),
        )
    }

    /// Shadowcasting over the circle of `radius`, where `obstruct` tells which
    /// cells block sight.
    pub fn new(radius: i32, obstruct: F) -> (caster: Self)
        requires
            0 <= radius,
        ensures
            caster.wf(),
            caster.radius() == radius,
            caster.obstruction() == obstruct,
            caster.remaining() == shadowcast(radius as int, opaque_cells(obstruct)),
    {
        let caster = RPAShadowcasting { obstruct, iter: CircleIter::new(radius) };
        assert(shadows_of(caster.iter.recorded()) =~= Seq::<Shadow>::empty());
        caster
    }

    /// Yields the next cell with its visibility, or `None` when the region is
    /// exhausted.
    pub fn next(&mut self) -> (item: Option<(i32, i32, bool)>)
        requires
            old(self).wf(),
        ensures
            final(self).wf(),
            final(self).radius() == old(self).radius(),
            final(self).obstruction() == old(self).obstruction(),
            match item {
                Some(it) => {
                    &&& old(self).remaining().len() > 0
                    &&& (it.0 as int, it.1 as int, it.2) == old(self).remaining()[0]
                    &&& final(self).remaining() == old(self).remaining().skip(1)
                },
                None => {
                    &&& old(self).remaining().len() == 0
                    &&& final(self).remaining().len() == 0
                },
            },
    {
        let ghost cells = self.iter.remaining();
        let (a, b, (near, center, far)) = match self.iter.next() {
            None => {
                return None;
            },
            Some(x) => x,
        };
        let ghost cell = cells[0];
        let ghost held = shadows_of(self.iter.recorded());
        assert(held =~= if cell.octant == old(self).iter.octant() {
            shadows_of(old(self).iter.recorded())
        } else {
            Seq::empty()
        });

        let mut visible = true;
        let mut near_vis = true;
        let mut center_vis = true;
        let mut far_vis = true;
        let obstructions = self.iter.obstructions();
        let mut i: usize = 0;
        while i < obstructions.len()
            invariant_except_break
                visible,
            invariant
                i <= obstructions.len(),
                visible == visible_when_spec(center_vis, near_vis, far_vis),
                obstructions@ == self.iter.recorded(),
                held == shadows_of(obstructions@),
                near@ == cell.near(),
                center@ == cell.center(),
                far@ == cell.far(),
                near_vis == clear_of_first(cell.near(), held, i as int),
                center_vis == clear_of_first(cell.center(), held, i as int),
                far_vis == clear_of_first(cell.far(), held, i as int),
            ensures
                visible == cell_visible(cell, held),
            decreases obstructions.len() - i,
        {
            let near_obs = obstructions[i].0;
            let far_obs = obstructions[i].1;
            assert(held[i as int] == (near_obs@, far_obs@));
            near_vis = near_vis && !angle_contained_in(&near, &near_obs, &far_obs);
            center_vis = center_vis && !angle_contained_in(&center, &near_obs, &far_obs);
            far_vis = far_vis && !angle_contained_in(&far, &near_obs, &far_obs);
            i = i + 1;

            visible = visible_when(center_vis, near_vis, far_vis);
            if !visible {
                break ;
            }
        }
        if (NONVIS_OCCLUDE && !visible) || self.obstruct.obstructs(a, b) {
            proof {
                lemma_shadows_of_push(self.iter.recorded(), near, far, ());
            }
            self.iter.record(near, far, ());
        }
        assert(self.remaining() =~= old(self).remaining().skip(1));
        Some((a, b, visible))
    }
}

/// An obstruction given as a list: the cells at the listed offsets are opaque,
/// all others are clear.
pub struct OpaqueCells {
    cells: Vec<(i32, i32)>,
}

impl OpaqueCells {
    /// The listed offsets.
    pub closed spec fn cells(&self) -> Seq<(i32, i32)> {
        self.cells@
    }

    /// The obstruction made of the cells at the offsets `cells`.
    pub fn new(cells: Vec<(i32, i32)>) -> (layout: Self)
        ensures
            layout.cells() == cells@,
    {
        OpaqueCells { cells }
    }
}

impl Obstruction for OpaqueCells {
    open spec fn opaque(&self, dx: int, dy: int) -> bool {
        exists|k: int|
            0 <= k < self.cells().len() && (#[trigger] self.cells()[k]).0 == dx && self.cells()[k].1
                == dy
    }

    fn obstructs(&self, dx: i32, dy: i32) -> (b: bool) {
        let mut i: usize = 0;
        while i < self.cells.len()
            invariant
                i <= self.cells@.len(),
                forall|k: int|
                    0 <= k < i ==> !((#[trigger] self.cells@[k]).0 == dx && self.cells@[k].1 == dy),
            decreases self.cells@.len() - i,
        {
            if self.cells[i].0 == dx && self.cells[i].1 == dy {
                assert(self.cells()[i as int].0 == dx && self.cells()[i as int].1 == dy);
                return true;
            }
            i = i + 1;
        }
        false
    }
}

} // verus!
