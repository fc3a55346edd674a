//! Random initialisation of boards and matrices, drawing from the
//! thread-local generator of the `rand` crate. Nothing is assumed of a
//! draw beyond its range, so every contract here holds for every
//! outcome.

use vstd::prelude::*;
use crate::grid::{board_set_cell, grid_view, is_grid};

verus! {

#[verifier::external_type_specification]
#[verifier::external_body]
pub struct ExThreadRng(rand::rngs::ThreadRng);

/// Relies on rand::rng: a handle to the thread-local generator.
#[verifier::external_body]
fn new_rng() -> rand::rngs::ThreadRng {
    rand::rng()
}

/// Relies on RngExt::random_range over `0..bound`: returns a value of
/// that half-open range, which is nonempty because `bound >= 1`.
/// Nothing more is assumed of a random draw.
#[verifier::external_body]
fn rng_below(rng: &mut rand::rngs::ThreadRng, bound: i32) -> (r: i32)
    requires
        bound >= 1,
    ensures
        0 <= r < bound,
{
    rand::RngExt::random_range(rng, 0..bound)
}

/// Randomises the board in place: each cell is set alive when a draw
/// from `[0, 10)` falls below `chance_tenths` (a probability in
/// tenths). The shape of the board is unchanged and a cell that was
/// alive stays alive; which dead cells come alive depends on the
/// generator alone, except at the two extremes: a chance of 0 changes
/// nothing and a chance of 10 or more fills the whole board.
pub fn randomize_board(board: &mut Vec<Vec<bool>>, height: u32, width: u32, chance_tenths: i32)
    requires
        is_grid(grid_view(old(board)@), height as int, width as int),
    ensures
        is_grid(grid_view(final(board)@), height as int, width as int),
        forall|i: int, j: int|
            0 <= i < height && 0 <= j < width && grid_view(old(board)@)[i][j]
                ==> #[trigger] grid_view(final(board)@)[i][j],
        chance_tenths <= 0 ==> grid_view(final(board)@) == grid_view(old(board)@),
        chance_tenths >= 10 ==> forall|i: int, j: int|
            0 <= i < height && 0 <= j < width ==> #[trigger] grid_view(final(board)@)[i][j],
{
    let ghost b0 = grid_view(board@);
    let mut rng = new_rng();
    for i in 0..height
        invariant
            is_grid(grid_view(board@), height as int, width as int),
            forall|r: int, c: int|
                0 <= r < height && 0 <= c < width && b0[r][c] ==> #[trigger] grid_view(
                    board@,
                )[r][c],
            chance_tenths <= 0 ==> grid_view(board@) == b0,
            chance_tenths >= 10 ==> forall|r: int, c: int|
                0 <= r < i && 0 <= c < width ==> #[trigger] grid_view(board@)[r][c],
            b0 == grid_view(old(board)@),
    {
        for j in 0..width
            invariant
                i < height,
                is_grid(grid_view(board@), height as int, width as int),
                forall|r: int, c: int|
                    0 <= r < height && 0 <= c < width && b0[r][c] ==> #[trigger] grid_view(
                        board@,
                    )[r][c],
                chance_tenths <= 0 ==> grid_view(board@) == b0,
                chance_tenths >= 10 ==> forall|r: int, c: int|
                    0 <= r < i && 0 <= c < width ==> #[trigger] grid_view(board@)[r][c],
                chance_tenths >= 10 ==> forall|c: int|
                    0 <= c < j ==> #[trigger] grid_view(board@)[i as int][c],
                b0 == grid_view(old(board)@),
        {
            let random: i32 = rng_below(&mut rng, 10);
            if random < chance_tenths {
                proof {
                    assert(grid_view(board@)[i as int].len() == width);
                    assert(grid_view(board@)[i as int] == board@[i as int]@);
                }
                let ghost before = grid_view(board@);
                board_set_cell(board, i as usize, j as usize, true);
                proof {
                    assert forall|r: int, c: int|
                        0 <= r < height && 0 <= c < width && b0[r][c] implies #[trigger] grid_view(
                        board@,
                    )[r][c] by {
                        if r == i as int && c == j as int {
                        } else {
                            assert(before[r][c]);
                        }
                    }
                    assert forall|r: int, c: int|
                        0 <= r < i && 0 <= c < width implies #[trigger] grid_view(board@)[r][c]
                        || !(chance_tenths >= 10) by {
                        if chance_tenths >= 10 && !(r == i as int && c == j as int) {
                            assert(before[r][c]);
                        }
                    }
                    assert forall|c: int|
                        0 <= c < j + 1 && chance_tenths >= 10 implies #[trigger] grid_view(
                        board@,
                    )[i as int][c] by {
                        if c < j {
                            assert(before[i as int][c]);
                        }
                    }
                }
            }
        }
    }
}

/// Builds a `maxi x maxj` matrix whose entries are draws from
/// `[0, threshold)`, taken from the thread-local generator. The shape
/// and the entry range hold for every outcome.
pub fn create_matrix_from_random(maxi: i32, maxj: i32, threshold: i32) -> (matrix: Vec<Vec<i32>>)
    requires
        0 <= maxi,
        0 <= maxj,
        threshold >= 1,
    ensures
        matrix@.len() == maxi as int,
        forall|i: int| 0 <= i < maxi ==> (#[trigger] matrix@[i])@.len() == maxj as int,
        forall|i: int, j: int|
            0 <= i < maxi && 0 <= j < maxj ==> 0 <= #[trigger] grid_view(matrix@)[i][j]
                < threshold,
{
    let mut rng = new_rng();
    let rows = maxi as usize;
    let cols = maxj as usize;
    let mut matrix: Vec<Vec<i32>> = Vec::new();
    for i in 0..rows
        invariant
            threshold >= 1,
            matrix@.len() == i,
            forall|r: int| 0 <= r < i ==> (#[trigger] matrix@[r])@.len() == cols,
            forall|r: int, c: int|
                0 <= r < i && 0 <= c < cols ==> 0 <= #[trigger] matrix@[r]@[c] < threshold,
    {
        let mut row: Vec<i32> = Vec::new();
        for j in 0..cols
            invariant
                threshold >= 1,
                row@.len() == j,
                forall|c: int| 0 <= c < j ==> 0 <= #[trigger] row@[c] < threshold,
        {
            let n: i32 = rng_below(&mut rng, threshold);
            row.push(n);
        }
        matrix.push(row);
    }
    matrix
}

} // verus!
