//! The cell state and the spec-level model of a grid: a set of living
//! coordinates, the state read off it, and Moore-neighborhood counting.

use vstd::prelude::*;

use crate::window::{Iter, Window};

verus! {

/// The two states a cell can be in. Every coordinate not stored as living
/// reads as `Dead`.
#[derive(Debug, Clone, Copy, PartialEq, Eq, Structural)]
pub enum State {
    Alive,
    Dead,
}

/// The state of coordinate `(x, y)` under the living set `cells`: `Alive`
/// exactly when the set holds the pair, `Dead` otherwise — total over all
/// integers, so any out-of-range lookup is `Dead` by construction.
pub open spec fn state_of(cells: Set<(int, int)>, x: int, y: int) -> State {
    if cells.contains((x, y)) {
        State::Alive
    } else {
        State::Dead
    }
}

/// One when `(x, y)` is living, zero otherwise.
pub open spec fn live_ind(cells: Set<(int, int)>, x: int, y: int) -> int {
    if cells.contains((x, y)) {
        1
    } else {
        0
    }
}

/// The number of living cells among the eight Moore neighbors of `(x, y)`.
pub open spec fn neighbor_total(cells: Set<(int, int)>, x: int, y: int) -> int {
    live_ind(cells, x - 1, y - 1) + live_ind(cells, x - 1, y) + live_ind(cells, x - 1, y + 1)
        + live_ind(cells, x, y - 1) + live_ind(cells, x, y + 1) + live_ind(cells, x + 1, y - 1)
        + live_ind(cells, x + 1, y) + live_ind(cells, x + 1, y + 1)
}

/// What any addressable rectangular cell grid offers: total cell lookup,
/// neighbor counting by one shared algorithm, window creation, and scan
/// iteration over its own rectangle.
pub trait BoardView: Sized {
    /// The living set of the underlying board.
    spec fn live_cells(&self) -> Set<(int, int)>;

    /// The least row of the addressed rectangle.
    spec fn x_min(&self) -> int;

    /// The greatest row of the addressed rectangle, inclusive.
    spec fn x_max(&self) -> int;

    /// The least column of the addressed rectangle.
    spec fn y_min(&self) -> int;

    /// The greatest column of the addressed rectangle, inclusive.
    spec fn y_max(&self) -> int;

    /// Whether the corners of the addressed rectangle can be computed in
    /// i32, as `as_window` and `iter` must.
    spec fn extent_fits(&self) -> bool;

    /// Whether the corners that `window_offsets` computes from the given
    /// offsets and extents fit in i32.
    spec fn offsets_fit(&self, offset_x: int, offset_y: int, dim_x: int, dim_y: int) -> bool;

    /// The state of `(x, y)`: `Alive` exactly when it is a living coordinate
    /// of the underlying board. Total over all coordinates — anything
    /// outside the board reads `Dead`, never an error.
    fn cell_state(&self, x: i32, y: i32) -> (s: State)
        ensures
            s == state_of(self.live_cells(), x as int, y as int),
    ;

    /// The view covering this grid's own full extent.
    fn as_window<'a>(&'a self) -> (w: Window<'a>)
        requires
            self.extent_fits(),
        ensures
            w.min_x as int == self.x_min(),
            w.min_y as int == self.y_min(),
            w.max_x as int == self.x_max(),
            w.max_y as int == self.y_max(),
            w.cells() == self.live_cells(),
    ;

    /// An arbitrary rectangular view anchored to the same underlying board.
    /// The bounds are not validated against this grid's own extent.
    fn window<'a>(&'a self, min_x: i32, min_y: i32, max_x: i32, max_y: i32) -> (w: Window<'a>)
        ensures
            w.min_x == min_x,
            w.min_y == min_y,
            w.max_x == max_x,
            w.max_y == max_y,
            w.cells() == self.live_cells(),
    ;

    /// A scan of this grid's own rectangle, rows ascending in x outermost,
    /// columns ascending in y within a row.
    fn iter<'a>(&'a self) -> (it: Iter<'a>)
        requires
            self.extent_fits(),
        ensures
            it.wf(),
            it.pos() == 0,
            it.window.min_x as int == self.x_min(),
            it.window.min_y as int == self.y_min(),
            it.window.max_x as int == self.x_max(),
            it.window.max_y as int == self.y_max(),
            it.window.cells() == self.live_cells(),
    ;

    /// The view whose minimum corner is this grid's own minimum corner moved
    /// by the offsets, extended by the given extents: equivalent to
    /// `window(x_min + offset_x, y_min + offset_y, x_min + offset_x + dim_x,
    /// y_min + offset_y + dim_y)`.
    fn window_offsets<'a>(&'a self, offset_x: i32, offset_y: i32, dim_x: i32, dim_y: i32) -> (w:
        Window<'a>)
        requires
            self.offsets_fit(offset_x as int, offset_y as int, dim_x as int, dim_y as int),
        ensures
            w.min_x as int == self.x_min() + offset_x,
            w.min_y as int == self.y_min() + offset_y,
            w.max_x as int == self.x_min() + offset_x + dim_x,
            w.max_y as int == self.y_min() + offset_y + dim_y,
            w.cells() == self.live_cells(),
    ;

    /// Sums `cell_state` over the eight Moore-neighborhood offsets, each
    /// living neighbor contributing one. This default algorithm is shared by
    /// every implementer; its correctness rests on `cell_state` alone.
    fn neighbor_count(&self, x: i32, y: i32) -> (n: u8)
        requires
            i32::MIN < x < i32::MAX,
            i32::MIN < y < i32::MAX,
        ensures
            n as int == neighbor_total(self.live_cells(), x as int, y as int),
            n <= 8,
    {
        let mut result: u8 = 0;
        if self.cell_state(x - 1, y - 1) == State::Alive {
            result = result + 1;
        }
        if self.cell_state(x - 1, y) == State::Alive {
            result = result + 1;
        }
        if self.cell_state(x - 1, y + 1) == State::Alive {
            result = result + 1;
        }
        if self.cell_state(x, y - 1) == State::Alive {
            result = result + 1;
        }
        if self.cell_state(x, y + 1) == State::Alive {
            result = result + 1;
        }
        if self.cell_state(x + 1, y - 1) == State::Alive {
            result = result + 1;
        }
        if self.cell_state(x + 1, y) == State::Alive {
            result = result + 1;
        }
        if self.cell_state(x + 1, y + 1) == State::Alive {
            result = result + 1;
        }
        result
    }
}

} // verus!
