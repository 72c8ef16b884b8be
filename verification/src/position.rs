//! Toroidal grid addressing: pure position arithmetic over a fixed-size
//! two-dimensional grid with wraparound on all four axes.

use vstd::prelude::*;

verus! {

/// A cell position: an ordered pair (x, y), always interpreted relative
/// to a map size (width, height) with 0 <= x < width and 0 <= y < height.
pub type Position = (u32, u32);

/// A map size: an ordered pair (width, height), fixed for one game.
pub type MapSize = (u32, u32);

/// One step towards the high edge of an axis, wrapping to 0 at the edge.
pub open spec fn wrap_inc(v: u32, size: u32) -> u32 {
    if v + 1 == size {
        0u32
    } else {
        (v + 1) as u32
    }
}

/// One step towards the low edge of an axis, wrapping to size - 1 at 0.
pub open spec fn wrap_dec(v: u32, size: u32) -> u32 {
    if v == 0 {
        (size - 1) as u32
    } else {
        (v - 1) as u32
    }
}

/// The cell one step east of `p` on a toroidal grid of size `s`.
pub open spec fn east_of(p: Position, s: MapSize) -> Position {
    (wrap_inc(p.0, s.0), p.1)
}

/// The cell one step west of `p` on a toroidal grid of size `s`.
pub open spec fn west_of(p: Position, s: MapSize) -> Position {
    (wrap_dec(p.0, s.0), p.1)
}

/// The cell one step south of `p` on a toroidal grid of size `s`.
pub open spec fn south_of(p: Position, s: MapSize) -> Position {
    (p.0, wrap_inc(p.1, s.1))
}

/// The cell one step north of `p` on a toroidal grid of size `s`.
pub open spec fn north_of(p: Position, s: MapSize) -> Position {
    (p.0, wrap_dec(p.1, s.1))
}

/// `p` lies on a grid of size `s`.
pub open spec fn in_bounds(p: Position, s: MapSize) -> bool {
    p.0 < s.0 && p.1 < s.1
}

/// Stepping east then west, or west then east, returns to the start;
/// likewise north then south, or south then north. Wraparound is its
/// own inverse on every cell of the grid.
pub proof fn lemma_step_inverse(p: Position, s: MapSize)
    requires
        in_bounds(p, s),
    ensures
        east_of(west_of(p, s), s) == p,
        west_of(east_of(p, s), s) == p,
        north_of(south_of(p, s), s) == p,
        south_of(north_of(p, s), s) == p,
{
}

/// A step stays on the grid: every neighbor of an in-bounds cell is in bounds.
pub proof fn lemma_step_in_bounds(p: Position, s: MapSize)
    requires
        in_bounds(p, s),
    ensures
        in_bounds(east_of(p, s), s),
        in_bounds(west_of(p, s), s),
        in_bounds(north_of(p, s), s),
        in_bounds(south_of(p, s), s),
{
}

/// At the grid boundary each step wraps to the opposite edge: east from
/// column width-1 lands in column 0, west from column 0 lands in column
/// width-1, south from row height-1 lands in row 0, and north from row 0
/// lands in row height-1.
pub proof fn lemma_boundary_wrap(p: Position, s: MapSize)
    requires
        in_bounds(p, s),
    ensures
        p.0 == s.0 - 1 ==> east_of(p, s) == ((0u32, p.1)),
        p.0 == 0 ==> west_of(p, s) == (((s.0 - 1) as u32, p.1)),
        p.1 == s.1 - 1 ==> south_of(p, s) == ((p.0, 0u32)),
        p.1 == 0 ==> north_of(p, s) == ((p.0, (s.1 - 1) as u32)),
{
}

/// Anything that has a fixed two-dimensional size.
pub trait SizedGrid2D {
    /// The size of the grid, in specifications.
    spec fn spec_size(&self) -> MapSize;

    /// The size of the grid: (width, height).
    fn get_size(&self) -> (r: MapSize)
        ensures
            r == self.spec_size(),
    ;
}

/// A bare (width, height) pair is itself a sized grid.
impl SizedGrid2D for (u32, u32) {
    open spec fn spec_size(&self) -> MapSize {
        *self
    }

    fn get_size(&self) -> (r: MapSize) {
        *self
    }
}

/// A cell position that can step to its four cardinal neighbors on any
/// sized grid, wrapping around the grid's edges.
pub trait RecursiveCellPosition: Sized {
    /// The x coordinate, in specifications.
    spec fn spec_x(&self) -> u32;

    /// The y coordinate, in specifications.
    spec fn spec_y(&self) -> u32;

    /// The x coordinate.
    fn get_x(&self) -> (r: u32)
        ensures
            r == self.spec_x(),
    ;

    /// The y coordinate.
    fn get_y(&self) -> (r: u32)
        ensures
            r == self.spec_y(),
    ;

    /// The cell one step north (towards row 0), wrapping at the edge.
    fn north<M: SizedGrid2D>(&self, recursive_map: &M) -> (r: Self)
        requires
            in_bounds((self.spec_x(), self.spec_y()), recursive_map.spec_size()),
        ensures
            (r.spec_x(), r.spec_y()) == north_of(
                (self.spec_x(), self.spec_y()),
                recursive_map.spec_size(),
            ),
    ;

    /// The cell one step south (towards row height-1), wrapping at the edge.
    fn south<M: SizedGrid2D>(&self, recursive_map: &M) -> (r: Self)
        requires
            in_bounds((self.spec_x(), self.spec_y()), recursive_map.spec_size()),
        ensures
            (r.spec_x(), r.spec_y()) == south_of(
                (self.spec_x(), self.spec_y()),
                recursive_map.spec_size(),
            ),
    ;

    /// The cell one step east (towards column width-1), wrapping at the edge.
    fn east<M: SizedGrid2D>(&self, recursive_map: &M) -> (r: Self)
        requires
            in_bounds((self.spec_x(), self.spec_y()), recursive_map.spec_size()),
        ensures
            (r.spec_x(), r.spec_y()) == east_of(
                (self.spec_x(), self.spec_y()),
                recursive_map.spec_size(),
            ),
    ;

    /// The cell one step west (towards column 0), wrapping at the edge.
    fn west<M: SizedGrid2D>(&self, recursive_map: &M) -> (r: Self)
        requires
            in_bounds((self.spec_x(), self.spec_y()), recursive_map.spec_size()),
        ensures
            (r.spec_x(), r.spec_y()) == west_of(
                (self.spec_x(), self.spec_y()),
                recursive_map.spec_size(),
            ),
    ;
}

impl RecursiveCellPosition for (u32, u32) {
    open spec fn spec_x(&self) -> u32 {
        self.0
    }

    open spec fn spec_y(&self) -> u32 {
        self.1
    }

    fn get_x(&self) -> (r: u32) {
        self.0
    }

    fn get_y(&self) -> (r: u32) {
        self.1
    }

    fn north<M: SizedGrid2D>(&self, recursive_map: &M) -> (r: Self) {
        let (x, y) = (self.0, self.1);
        if y == 0 {
            (x, recursive_map.get_size().1 - 1)
        } else {
            (x, y - 1)
        }
    }

    fn south<M: SizedGrid2D>(&self, recursive_map: &M) -> (r: Self) {
        let (x, y) = (self.0, self.1);
        if y + 1 > recursive_map.get_size().1 - 1 {
            (x, 0)
        } else {
            (x, y + 1)
        }
    }

    fn east<M: SizedGrid2D>(&self, recursive_map: &M) -> (r: Self) {
        let (x, y) = (self.0, self.1);
        if x + 1 > recursive_map.get_size().0 - 1 {
            (0, y)
        } else {
            (x + 1, y)
        }
    }

    fn west<M: SizedGrid2D>(&self, recursive_map: &M) -> (r: Self) {
        let (x, y) = (self.0, self.1);
        if x == 0 {
            (recursive_map.get_size().0 - 1, y)
        } else {
            (x - 1, y)
        }
    }
}

} // verus!
