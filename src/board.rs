use vstd::prelude::*;
use crate::cell::GridCell;

verus! {

/// A two-dimensional grid of cells stored in an `ndarray::Array2`, indexed
/// by `[row, column]`.
#[verifier::external_body]
pub struct Board {
    cells: ndarray::Array2<GridCell>,
}

/// The board's contents, row by row.
pub uninterp spec fn board_rows(b: Board) -> Seq<Seq<GridCell>>;

impl Board {
    /// Relies on ndarray::Array2::from_elem: a `rows` by `cols` array in which
    /// every cell is `c`. It panics when the product of the non-zero axis
    /// lengths overflows `isize`, so each length, and their product, is kept
    /// within `isize::MAX`.
    #[verifier::external_body]
    pub(crate) fn filled(rows: usize, cols: usize, c: GridCell) -> (b: Board)
        requires
            rows <= isize::MAX,
            cols <= isize::MAX,
            rows * cols <= isize::MAX,
        ensures
            board_rows(b) == Seq::new(rows as nat, |_r: int| Seq::new(cols as nat, |_c: int| c)),
    {
        Board { cells: ndarray::Array2::from_elem((rows, cols), c) }
    }

    /// Relies on indexing an ndarray::Array2 by `[row, col]`: the cell stored
    /// there. It panics outside the array's bounds.
    #[verifier::external_body]
    pub(crate) fn get(&self, row: usize, col: usize) -> (c: GridCell)
        requires
            row < board_rows(*self).len(),
            col < board_rows(*self)[row as int].len(),
        ensures
            c == board_rows(*self)[row as int][col as int],
    {
        self.cells[[row, col]]
    }

    /// Relies on mutable indexing of an ndarray::Array2 by `[row, col]`: that
    /// cell alone is replaced by `c`. It panics outside the array's bounds.
    #[verifier::external_body]
    pub(crate) fn set(&mut self, row: usize, col: usize, c: GridCell)
        requires
            row < board_rows(*old(self)).len(),
            col < board_rows(*old(self))[row as int].len(),
        ensures
            board_rows(*final(self)) == board_rows(*old(self)).update(
                row as int,
                board_rows(*old(self))[row as int].update(col as int, c),
            ),
    {
        self.cells[[row, col]] = c;
    }
}

} // verus!
