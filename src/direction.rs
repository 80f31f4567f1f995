use vstd::prelude::*;

verus! {

/// One of the four moves available to the agent.
#[derive(Debug, Clone, Copy, PartialEq, Eq, Hash, Structural)]
pub enum Direction {
    Left,
    Right,
    Up,
    Down,
}

/// The fixed enumeration order of the moves: Left, Right, Up, Down.
pub open spec fn direction_at(i: int) -> Direction {
    if i == 0 {
        Direction::Left
    } else if i == 1 {
        Direction::Right
    } else if i == 2 {
        Direction::Up
    } else {
        Direction::Down
    }
}

/// All moves, in the fixed enumeration order.
pub fn all_directions() -> (r: [Direction; 4])
    ensures
        forall|i: int| 0 <= i < 4 ==> r@[i] == direction_at(i),
{
    [Direction::Left, Direction::Right, Direction::Up, Direction::Down]
}

} // verus!
