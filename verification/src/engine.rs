//! The tick engine: derives the next generation of a board by applying the
//! transition rule to every cell of the declared rectangle, with neighbor
//! counts read entirely from the pre-tick board.

use vstd::prelude::*;

use crate::board::{coord_set, lemma_coord_set_push, Board};
use crate::transition::{next_state, next_state_spec};
use crate::types::{neighbor_total, state_of, BoardView, State};

verus! {

/// The living set of the next generation: the coordinates of the declared
/// rectangle whose next state under the transition rule is alive, every
/// state and neighbor count read from the current living set.
pub open spec fn next_live(cells: Set<(int, int)>, dim_x: int, dim_y: int) -> Set<(int, int)> {
    Set::new(
        |p: (int, int)|
            0 <= p.0 < dim_x && 0 <= p.1 < dim_y && next_state_spec(
                state_of(cells, p.0, p.1),
                neighbor_total(cells, p.0, p.1),
            ) == State::Alive,
    )
}

/// The part of `next_live` already decided when the scan stands at `(x, y)`:
/// the rows before `x`, and in row `x` the columns before `y`.
spec fn next_live_before(
    cells: Set<(int, int)>,
    dim_x: int,
    dim_y: int,
    x: int,
    y: int,
) -> Set<(int, int)> {
    next_live(cells, dim_x, dim_y).intersect(
        Set::new(|p: (int, int)| p.0 < x || (p.0 == x && p.1 < y)),
    )
}

/// Computes the board one generation after `board`: same dimensions, and a
/// cell of the declared rectangle is living exactly when the transition rule
/// makes it so from its pre-tick state and pre-tick neighbor count. The
/// input board is read, never changed.
pub fn tick(board: &Board) -> (r: Board)
    ensures
        r.dim_x == board.dim_x,
        r.dim_y == board.dim_y,
        r.wf(),
        r.live() == next_live(board.live(), board.dim_x as int, board.dim_y as int),
{
    let dim_x = board.dim_x;
    let dim_y = board.dim_y;
    let ghost full = next_live(board.live(), dim_x as int, dim_y as int);
    let mut cells: Vec<(i32, i32)> = Vec::new();
    let mut x: i32 = 0;
    while x < dim_x
        invariant
            0 <= x,
            x <= dim_x || dim_x <= 0,
            dim_x == board.dim_x,
            dim_y == board.dim_y,
            full == next_live(board.live(), dim_x as int, dim_y as int),
            coord_set(cells@) == next_live_before(
                board.live(),
                dim_x as int,
                dim_y as int,
                x as int,
                0,
            ),
        decreases dim_x - x,
    {
        let mut y: i32 = 0;
        while y < dim_y
            invariant
                0 <= x < dim_x,
                0 <= y,
                y <= dim_y || dim_y <= 0,
                dim_x == board.dim_x,
                dim_y == board.dim_y,
                full == next_live(board.live(), dim_x as int, dim_y as int),
                coord_set(cells@) == next_live_before(
                    board.live(),
                    dim_x as int,
                    dim_y as int,
                    x as int,
                    y as int,
                ),
            decreases dim_y - y,
        {
            let state = board.cell_state(x, y);
            let count = board.neighbor_count(x, y);
            if next_state(state, count) == State::Alive {
                proof {
                    lemma_coord_set_push(cells@, (x, y));
                    assert(next_live_before(
                        board.live(),
                        dim_x as int,
                        dim_y as int,
                        x as int,
                        y as int,
                    ).insert((x as int, y as int)) =~= next_live_before(
                        board.live(),
                        dim_x as int,
                        dim_y as int,
                        x as int,
                        y + 1,
                    ));
                }
                cells.push((x, y));
            } else {
                proof {
                    assert(next_live_before(
                        board.live(),
                        dim_x as int,
                        dim_y as int,
                        x as int,
                        y as int,
                    ) =~= next_live_before(
                        board.live(),
                        dim_x as int,
                        dim_y as int,
                        x as int,
                        y + 1,
                    ));
                }
            }
            y = y + 1;
        }
        proof {
            assert(next_live_before(board.live(), dim_x as int, dim_y as int, x as int, dim_y as int)
                =~= next_live_before(board.live(), dim_x as int, dim_y as int, x + 1, 0));
        }
        x = x + 1;
    }
    proof {
        assert(next_live_before(
            board.live(),
            dim_x as int,
            dim_y as int,
            if dim_x >= 0 {
                dim_x as int
            } else {
                0
            },
            0,
        ) =~= full);
    }
    Board::new(dim_x, dim_y, cells)
}

} // verus!
