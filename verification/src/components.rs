//! What an agent on the map carries: where it stands and what it sees.

use vstd::prelude::*;

verus! {

/// A place on the map.
#[derive(PartialEq, Eq, Structural, Copy, Clone, Debug, Default)]
pub struct Position {
    pub x: i32,
    pub y: i32,
}

/// Something that stands on a cell of the map.
#[derive(PartialEq, Eq, Structural, Copy, Clone, Debug)]
pub struct Occupant {
    /// Who it is.
    pub id: u64,
    /// Where it stands.
    pub position: Position,
    /// Whether others are kept from entering its cell.
    pub blocks: bool,
}

/// A viewshed as a mathematical value.
pub struct ViewshedView {
    /// The coordinates seen at the last refresh, in the order of the scan.
    pub visible_tiles: Seq<(i32, i32)>,
    /// How far the agent sees.
    pub range: int,
    /// Whether `visible_tiles` must be computed anew before it is trusted.
    pub dirty: bool,
}

/// What an agent sees from where it stands. It starts out stale and empty; a
/// refresh replaces the whole list and makes it fresh.
pub struct Viewshed {
    visible_tiles: Vec<(i32, i32)>,
    range: i32,
    dirty: bool,
}

impl View for Viewshed {
    type V = ViewshedView;

    closed spec fn view(&self) -> ViewshedView {
        ViewshedView {
            visible_tiles: self.visible_tiles@,
            range: self.range as int,
            dirty: self.dirty,
        }
    }
}

impl Viewshed {
    /// The range is positive.
    pub open spec fn wf(&self) -> bool {
        0 < self@.range <= i32::MAX
    }

    /// A stale, empty viewshed of the given range. A range that is not
    /// positive is refused.
    pub fn new(range: i32) -> (made: Option<Viewshed>)
        ensures
            range <= 0 ==> made is None,
            range > 0 ==> made is Some && made->Some_0@ == (ViewshedView {
                visible_tiles: Seq::empty(),
                range: range as int,
                dirty: true,
            }),
    {
        if range <= 0 {
            None
        } else {
            Some(Viewshed { visible_tiles: Vec::new(), range, dirty: true })
        }
    }

    /// How far the agent sees.
    pub fn range(&self) -> (range: i32)
        ensures
            range == self@.range,
    {
        self.range
    }

    /// Whether the viewshed is stale.
    pub fn is_dirty(&self) -> (dirty: bool)
        ensures
            dirty == self@.dirty,
    {
        self.dirty
    }

    /// The coordinates seen at the last refresh.
    pub fn visible_tiles(&self) -> (tiles: &Vec<(i32, i32)>)
        ensures
            tiles@ == self@.visible_tiles,
    {
        &self.visible_tiles
    }

    /// Marks the viewshed stale, as after the agent has moved.
    pub fn mark_dirty(&mut self)
        ensures
            final(self)@ == (ViewshedView { dirty: true, ..old(self)@ }),
    {
        self.dirty = true;
    }

    /// Changes the range and marks the viewshed stale. A range that is not
    /// positive is refused and changes nothing.
    pub fn set_range(&mut self, range: i32) -> (changed: bool)
        ensures
            changed == (range > 0),
            changed ==> final(self)@ == (ViewshedView {
                range: range as int,
                dirty: true,
                ..old(self)@
            }),
            !changed ==> final(self)@ == old(self)@,
    {
        if range > 0 {
            self.range = range;
            self.dirty = true;
            true
        } else {
            false
        }
    }

    /// Replaces what is seen by `tiles` and makes the viewshed fresh.
    pub(crate) fn replace(&mut self, tiles: Vec<(i32, i32)>)
        ensures
            final(self)@ == (ViewshedView {
                visible_tiles: tiles@,
                dirty: false,
                ..old(self)@
            }),
    {
        self.visible_tiles = tiles;
        self.dirty = false;
    }
}

} // verus!
