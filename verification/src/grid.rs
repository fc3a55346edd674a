//! Rectangular 2-D grids stored row-major as `Vec<Vec<T>>`, with their
//! mathematical view as a `Seq<Seq<T>>`, and the basic cell accessors of
//! the boolean board.

use vstd::prelude::*;
use vstd::pervasive::VecAdditionalExecFns;

verus! {

/// The mathematical view of a row-major grid: one sequence per row.
pub open spec fn grid_view<T>(rows: Seq<Vec<T>>) -> Seq<Seq<T>> {
    Seq::new(rows.len(), |i: int| rows[i]@)
}

/// The grid is rectangular with the given number of rows and columns.
pub open spec fn is_grid<T>(g: Seq<Seq<T>>, rows: int, cols: int) -> bool {
    g.len() == rows && (forall|i: int| 0 <= i < rows ==> (#[trigger] g[i]).len() == cols)
}

/// A fresh all-dead board of `height` rows and `width` columns.
pub fn board_new(width: u32, height: u32) -> (cells: Vec<Vec<bool>>)
    ensures
        is_grid(grid_view(cells@), height as int, width as int),
        forall|i: int, j: int|
            0 <= i < height && 0 <= j < width ==> !(#[trigger] grid_view(cells@)[i][j]),
{
    let mut cells: Vec<Vec<bool>> = Vec::new();
    for i in 0..height
        invariant
            cells@.len() == i,
            forall|r: int| 0 <= r < i ==> (#[trigger] cells@[r])@.len() == width,
            forall|r: int, c: int|
                0 <= r < i && 0 <= c < width ==> !(#[trigger] cells@[r]@[c]),
    {
        let mut row: Vec<bool> = Vec::new();
        for j in 0..width
            invariant
                row@.len() == j,
                forall|c: int| 0 <= c < j ==> !(#[trigger] row@[c]),
        {
            row.push(false);
        }
        cells.push(row);
    }
    cells
}

/// Reads the cell at row `x`, column `y`.
pub fn board_get_cell(board: &Vec<Vec<bool>>, x: usize, y: usize) -> (cell: bool)
    requires
        x < board@.len(),
        y < board@[x as int]@.len(),
    ensures
        cell == grid_view(board@)[x as int][y as int],
{
    board[x][y]
}

/// Writes `value` into the cell at row `x`, column `y`; every other cell
/// keeps its state and the shape of the board does not change.
pub fn board_set_cell(board: &mut Vec<Vec<bool>>, x: usize, y: usize, value: bool)
    requires
        x < old(board)@.len(),
        y < old(board)@[x as int]@.len(),
    ensures
        grid_view(final(board)@) == grid_view(old(board)@).update(
            x as int,
            grid_view(old(board)@)[x as int].update(y as int, value),
        ),
{
    let row: &mut Vec<bool> = &mut board[x];
    row.set(y, value);
    proof {
        assert(grid_view(board@) =~= grid_view(old(board)@).update(
            x as int,
            grid_view(old(board)@)[x as int].update(y as int, value),
        ));
    }
}

} // verus!
