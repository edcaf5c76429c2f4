//! The Game of Life transition rule: a pure function from the current state
//! and the live-neighbor count to the next state.

use vstd::prelude::*;

use crate::types::State;

verus! {

/// The transition table as a spec function: a live cell survives with two or
/// three live neighbors, a dead cell is born with exactly three, and every
/// other combination yields a dead cell.
pub open spec fn next_state_spec(current: State, neighbors: int) -> State {
    match current {
        State::Alive => if 2 <= neighbors <= 3 {
            State::Alive
        } else {
            State::Dead
        },
        State::Dead => if neighbors == 3 {
            State::Alive
        } else {
            State::Dead
        },
    }
}

/// Applies the transition rule to one cell. Counts above eight never arise
/// from neighbor counting and are not accepted.
pub fn next_state(current_state: State, neighbor_count: u8) -> (r: State)
    requires
        neighbor_count <= 8,
    ensures
        r == next_state_spec(current_state, neighbor_count as int),
{
    match (current_state, neighbor_count) {
        (State::Dead, 0..=2) => State::Dead,
        (State::Dead, 3) => State::Alive,
        (State::Dead, _) => State::Dead,
        (State::Alive, 0..=1) => State::Dead,
        (State::Alive, 2..=3) => State::Alive,
        (State::Alive, _) => State::Dead,
    }
}

/// The transition table is total on counts `0..=8`, and the table pins down
/// the only two ways to be alive next generation: a live cell with two or
/// three live neighbors survives, and a dead cell with exactly three is born.
pub proof fn lemma_transition_table(current: State, neighbors: int)
    requires
        0 <= neighbors <= 8,
    ensures
        next_state_spec(current, neighbors) == State::Alive || next_state_spec(current, neighbors)
            == State::Dead,
        next_state_spec(current, neighbors) == State::Alive <==> (current == State::Alive && (
        neighbors == 2 || neighbors == 3)) || (current == State::Dead && neighbors == 3),
{
}

} // verus!
