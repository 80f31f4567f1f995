use vstd::prelude::*;

verus! {

/// What occupies one square of the board.
#[derive(Debug, Clone, Copy, PartialEq, Eq, Structural)]
pub enum GridCell {
    Empty,
    Wall,
    Goal,
    Trap,
}

/// The fixed score of a cell: one for the goal, minus one for the trap,
/// nothing elsewhere.
pub open spec fn score_of(c: GridCell) -> int {
    match c {
        GridCell::Empty => 0,
        GridCell::Wall => 0,
        GridCell::Goal => 1,
        GridCell::Trap => -1,
    }
}

impl Default for GridCell {
    fn default() -> (c: GridCell)
        ensures
            c == GridCell::Empty,
    {
        GridCell::Empty
    }
}

impl GridCell {
    /// The cell's score, as `score_of` gives it.
    pub fn score(&self) -> (r: i32)
        ensures
            r == score_of(*self),
    {
        match self {
            GridCell::Empty => 0,
            GridCell::Wall => 0,
            GridCell::Goal => 1,
            GridCell::Trap => -1,
        }
    }
}

} // verus!
