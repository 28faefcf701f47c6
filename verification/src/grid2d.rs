//! Integer 2D grid coordinates and movement deltas.
//!
//! One cell of the playing field is one unit.  `Grid2D` is a discrete
//! position, `Grid2DDelta` a movement vector; deltas compose additively with
//! deltas and with positions.

use vstd::prelude::*;

verus! {

/// A discrete grid position; one cell = one unit.
#[derive(Clone, Copy, Debug, PartialEq, Eq, Hash, Structural)]
pub struct Grid2D {
    pub x: i32,
    pub y: i32,
}

/// A movement vector between grid positions.
#[derive(Clone, Copy, Debug, PartialEq, Eq, Hash, Structural)]
pub struct Grid2DDelta {
    pub x: i32,
    pub y: i32,
}

/// True when both component sums of `p + d` stay within `i32`.
pub open spec fn pos_sum_fits(p: Grid2D, d: Grid2DDelta) -> bool {
    &&& i32::MIN <= p.x + d.x <= i32::MAX
    &&& i32::MIN <= p.y + d.y <= i32::MAX
}

/// True when both component sums of `d1 + d2` stay within `i32`.
pub open spec fn delta_sum_fits(d1: Grid2DDelta, d2: Grid2DDelta) -> bool {
    &&& i32::MIN <= d1.x + d2.x <= i32::MAX
    &&& i32::MIN <= d1.y + d2.y <= i32::MAX
}

/// The position one `d` away from `p` (componentwise sum, assuming it fits).
pub open spec fn pos_plus(p: Grid2D, d: Grid2DDelta) -> Grid2D
    recommends
        pos_sum_fits(p, d),
{
    Grid2D { x: (p.x + d.x) as i32, y: (p.y + d.y) as i32 }
}

/// The componentwise sum of two deltas (assuming it fits).
pub open spec fn delta_plus(d1: Grid2DDelta, d2: Grid2DDelta) -> Grid2DDelta
    recommends
        delta_sum_fits(d1, d2),
{
    Grid2DDelta { x: (d1.x + d2.x) as i32, y: (d1.y + d2.y) as i32 }
}

impl Grid2D {
    pub fn new(x: i32, y: i32) -> (r: Self)
        ensures
            r == (Grid2D { x, y }),
    {
        Self { x, y }
    }

    /// The position reached by moving this position by `rhs`.
    pub fn plus(self, rhs: Grid2DDelta) -> (r: Self)
        requires
            pos_sum_fits(self, rhs),
        ensures
            r == pos_plus(self, rhs),
            r.x == self.x + rhs.x,
            r.y == self.y + rhs.y,
    {
        Self { x: self.x + rhs.x, y: self.y + rhs.y }
    }

    /// Moves this position in place by `rhs`.
    pub fn translate(&mut self, rhs: Grid2DDelta)
        requires
            pos_sum_fits(*old(self), rhs),
        ensures
            *final(self) == pos_plus(*old(self), rhs),
    {
        self.x = self.x + rhs.x;
        self.y = self.y + rhs.y;
    }
}

impl Grid2DDelta {
    pub fn new(x: i32, y: i32) -> (r: Self)
        ensures
            r == (Grid2DDelta { x, y }),
    {
        Self { x, y }
    }

    /// The componentwise sum of this delta and `rhs`.
    pub fn plus(self, rhs: Self) -> (r: Self)
        requires
            delta_sum_fits(self, rhs),
        ensures
            r == delta_plus(self, rhs),
            r.x == self.x + rhs.x,
            r.y == self.y + rhs.y,
    {
        Self { x: self.x + rhs.x, y: self.y + rhs.y }
    }
}

/// Delta composition is associative: stepping by `d1` and then by `d2` lands
/// on the same cell as stepping once by `d1 + d2`, whenever every
/// intermediate and final sum stays within `i32`.
pub proof fn lemma_plus_assoc(p: Grid2D, d1: Grid2DDelta, d2: Grid2DDelta)
    requires
        pos_sum_fits(p, d1),
        delta_sum_fits(d1, d2),
        i32::MIN <= p.x + d1.x + d2.x <= i32::MAX,
        i32::MIN <= p.y + d1.y + d2.y <= i32::MAX,
    ensures
        pos_sum_fits(pos_plus(p, d1), d2),
        pos_sum_fits(p, delta_plus(d1, d2)),
        pos_plus(pos_plus(p, d1), d2) == pos_plus(p, delta_plus(d1, d2)),
{
}

} // verus!
