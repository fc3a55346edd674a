//! The engine's entry points: one stencil step and one matrix
//! operation, each runnable sequentially or fanned out over a chosen
//! number of workers, with explicit rejection of bad shapes and of a
//! zero worker count. The result never depends on the execution mode:
//! the partitioned run is proved to return the sequential reference's
//! output.

use vstd::prelude::*;
use crate::grid::{grid_view, is_grid};
use crate::life::{next_gen, update_partitioned, update_sequential};
use crate::matrix::{cols_of, is_rect, mul_matrix_partitioned, mul_matrix_sequential, prod_entry,
    prod_fits, prod_row, rows_of, same_shape, sub_fits, sub_matrix_partitioned,
    sub_matrix_sequential, sub_row, sum_fits, sum_matrix_partitioned, sum_matrix_sequential,
    sum_row};
use crate::partition::{lemma_partition_cover, part_end, part_start};

verus! {

/// How an operation is executed: in one pass on the calling thread, or
/// split among the given number of workers.
#[derive(Clone, Copy, PartialEq, Eq, Structural, Debug)]
pub enum Mode {
    Sequential,
    Threaded(usize),
}

/// The matrix operations the engine supports.
#[derive(Clone, Copy, PartialEq, Eq, Structural, Debug)]
pub enum MatrixOp {
    Sum,
    Sub,
    Product,
}

/// Why an operation was rejected without computing anything.
#[derive(Clone, Copy, PartialEq, Eq, Structural, Debug)]
pub enum EngineError {
    /// The operands' dimensions do not fit the requested operation.
    DimensionMismatch,
    /// A threaded run was requested with zero workers.
    ZeroWorkers,
}

/// A mode is valid unless it asks for a threaded run with no workers.
pub open spec fn mode_ok(mode: Mode) -> bool {
    match mode {
        Mode::Sequential => true,
        Mode::Threaded(w) => w >= 1,
    }
}

/// The shapes the requested matrix operation needs: identical
/// dimensions for the elementwise operations; inner dimensions that
/// agree, and a nonempty inner dimension, for the product.
pub open spec fn shapes_ok(op: MatrixOp, a: Seq<Seq<i32>>, b: Seq<Seq<i32>>) -> bool {
    is_rect(a) && is_rect(b) && match op {
        MatrixOp::Sum => same_shape(a, b),
        MatrixOp::Sub => same_shape(a, b),
        MatrixOp::Product => cols_of(a) == rows_of(b) && rows_of(b) >= 1,
    }
}

/// No intermediate value of the requested operation overflows `i32`.
pub open spec fn op_fits(op: MatrixOp, a: Seq<Seq<i32>>, b: Seq<Seq<i32>>) -> bool {
    match op {
        MatrixOp::Sum => sum_fits(a, b),
        MatrixOp::Sub => sub_fits(a, b),
        MatrixOp::Product => prod_fits(a, b),
    }
}

/// Column count of the operation's output.
pub open spec fn op_cols(op: MatrixOp, a: Seq<Seq<i32>>, b: Seq<Seq<i32>>) -> int {
    match op {
        MatrixOp::Sum => cols_of(a),
        MatrixOp::Sub => cols_of(a),
        MatrixOp::Product => cols_of(b),
    }
}

/// Entry `(i, j)` of the operation's output, as an unbounded integer.
pub open spec fn op_entry(op: MatrixOp, a: Seq<Seq<i32>>, b: Seq<Seq<i32>>, i: int, j: int) -> int {
    match op {
        MatrixOp::Sum => a[i][j] + b[i][j],
        MatrixOp::Sub => a[i][j] - b[i][j],
        MatrixOp::Product => prod_entry(a, b, i, j),
    }
}

/// Row `r` of the operation's output.
pub open spec fn op_row(op: MatrixOp, a: Seq<Seq<i32>>, b: Seq<Seq<i32>>, r: int) -> Seq<i32> {
    match op {
        MatrixOp::Sum => sum_row(a, b, r),
        MatrixOp::Sub => sub_row(a, b, r),
        MatrixOp::Product => prod_row(a, b, r),
    }
}

/// The operation's whole output, row by row.
pub open spec fn op_result(op: MatrixOp, a: Seq<Seq<i32>>, b: Seq<Seq<i32>>) -> Seq<Seq<i32>> {
    Seq::new(a.len(), |r: int| op_row(op, a, b, r))
}

/// What one matrix worker hands back to the joiner: the operation's
/// rows `[start, end)`, which it computes from its row slice alone.
pub open spec fn matrix_worker_output(
    op: MatrixOp,
    a: Seq<Seq<i32>>,
    b: Seq<Seq<i32>>,
    start: int,
    end: int,
) -> Seq<Seq<i32>> {
    op_result(op, a, b).subrange(start, end)
}

/// The outputs of the first `n` of `threads` matrix workers,
/// concatenated in partition order.
pub open spec fn joined_matrix_outputs(
    op: MatrixOp,
    a: Seq<Seq<i32>>,
    b: Seq<Seq<i32>>,
    threads: int,
    n: int,
) -> Seq<Seq<i32>>
    decreases n,
{
    if n <= 0 {
        Seq::empty()
    } else {
        joined_matrix_outputs(op, a, b, threads, n - 1) + matrix_worker_output(
            op,
            a,
            b,
            part_start(n - 1, a.len() as int, threads),
            part_end(n - 1, a.len() as int, threads),
        )
    }
}

proof fn lemma_joined_matrix_prefix(
    op: MatrixOp,
    a: Seq<Seq<i32>>,
    b: Seq<Seq<i32>>,
    threads: int,
    n: int,
)
    requires
        threads >= 1,
        0 <= n <= threads,
    ensures
        joined_matrix_outputs(op, a, b, threads, n) == op_result(op, a, b).subrange(
            0,
            if n == 0 {
                0int
            } else {
                part_end(n - 1, a.len() as int, threads)
            },
        ),
    decreases n,
{
    let rows = a.len() as int;
    lemma_partition_cover(rows, threads);
    if n == 0 {
        assert(joined_matrix_outputs(op, a, b, threads, 0) =~= op_result(op, a, b).subrange(
            0,
            0,
        ));
    } else {
        lemma_joined_matrix_prefix(op, a, b, threads, n - 1);
        let start = part_start(n - 1, rows, threads);
        let end = part_end(n - 1, rows, threads);
        if n - 1 > 0 {
            assert(part_end(n - 2, rows, threads) == start);
        }
        assert(joined_matrix_outputs(op, a, b, threads, n) =~= op_result(op, a, b).subrange(
            0,
            end,
        ));
    }
}

/// Law: sequential/parallel equivalence of the matrix operations. For
/// every pair of operands and every worker count, concatenating the
/// workers' outputs in partition order yields exactly the operation's
/// whole output - the same matrix the single-threaded reference pass
/// computes, with no row lost, duplicated or reordered.
pub proof fn lemma_matrix_join_equals_sequential(
    op: MatrixOp,
    a: Seq<Seq<i32>>,
    b: Seq<Seq<i32>>,
    threads: int,
)
    requires
        threads >= 1,
    ensures
        joined_matrix_outputs(op, a, b, threads, threads) == op_result(op, a, b),
{
    let rows = a.len() as int;
    lemma_partition_cover(rows, threads);
    lemma_joined_matrix_prefix(op, a, b, threads, threads);
    assert(op_result(op, a, b).subrange(0, rows) =~= op_result(op, a, b));
}

/// Checks at run time that the board is a `height x width` rectangle.
fn board_shape_ok(board: &Vec<Vec<bool>>, width: usize, height: usize) -> (ok: bool)
    ensures
        ok == is_grid(grid_view(board@), height as int, width as int),
{
    if board.len() != height {
        return false;
    }
    for i in 0..height
        invariant
            board@.len() == height,
            forall|r: int| 0 <= r < i ==> (#[trigger] grid_view(board@)[r]).len() == width,
    {
        proof {
            assert(grid_view(board@)[i as int] == board@[i as int]@);
        }
        if board[i].len() != width {
            return false;
        }
    }
    true
}

/// Checks at run time that a matrix is rectangular.
fn matrix_rect_ok(m: &Vec<Vec<i32>>) -> (ok: bool)
    ensures
        ok == is_rect(grid_view(m@)),
{
    if m.len() == 0 {
        return true;
    }
    proof {
        assert(grid_view(m@)[0] == m@[0]@);
    }
    let cols = m[0].len();
    for i in 0..m.len()
        invariant
            m@.len() >= 1,
            cols == cols_of(grid_view(m@)),
            forall|r: int| 0 <= r < i ==> (#[trigger] grid_view(m@)[r]).len() == cols,
    {
        proof {
            assert(grid_view(m@)[i as int] == m@[i as int]@);
        }
        if m[i].len() != cols {
            return false;
        }
    }
    true
}

/// Checks at run time that the operands' shapes fit the operation.
fn check_shapes(op: MatrixOp, m1: &Vec<Vec<i32>>, m2: &Vec<Vec<i32>>) -> (ok: bool)
    ensures
        ok == shapes_ok(op, grid_view(m1@), grid_view(m2@)),
{
    if !matrix_rect_ok(m1) || !matrix_rect_ok(m2) {
        return false;
    }
    let cols1 = if m1.len() == 0 {
        0
    } else {
        proof {
            assert(grid_view(m1@)[0] == m1@[0]@);
        }
        m1[0].len()
    };
    let cols2 = if m2.len() == 0 {
        0
    } else {
        proof {
            assert(grid_view(m2@)[0] == m2@[0]@);
        }
        m2[0].len()
    };
    match op {
        MatrixOp::Sum => m1.len() == m2.len() && cols1 == cols2,
        MatrixOp::Sub => m1.len() == m2.len() && cols1 == cols2,
        MatrixOp::Product => cols1 == m2.len() && m2.len() >= 1,
    }
}

/// Advances the board one generation. The board must be a
/// `height x width` rectangle and a threaded run must name at least one
/// worker; each violation is reported as an error, shapes first.
/// Whatever valid mode is chosen, the result is the same grid: the next
/// generation under the Conway rule.
pub fn advance(board: Vec<Vec<bool>>, width: usize, height: usize, mode: Mode) -> (r: Result<
    Vec<Vec<bool>>,
    EngineError,
>)
    ensures
        (r is Ok) <==> (is_grid(grid_view(board@), height as int, width as int) && mode_ok(mode)),
        !is_grid(grid_view(board@), height as int, width as int) ==> r == Result::<
            Vec<Vec<bool>>,
            EngineError,
        >::Err(EngineError::DimensionMismatch),
        is_grid(grid_view(board@), height as int, width as int) && !mode_ok(mode) ==> r == Result::<
            Vec<Vec<bool>>,
            EngineError,
        >::Err(EngineError::ZeroWorkers),
        r is Ok ==> grid_view(r->Ok_0@) == next_gen(
            grid_view(board@),
            height as int,
            width as int,
        ),
{
    if !board_shape_ok(&board, width, height) {
        return Err(EngineError::DimensionMismatch);
    }
    match mode {
        Mode::Sequential => Ok(update_sequential(board, width, height)),
        Mode::Threaded(w) => {
            if w == 0 {
                Err(EngineError::ZeroWorkers)
            } else {
                Ok(update_partitioned(board, width, height, w))
            }
        },
    }
}

/// Runs one matrix operation. Shape violations and a zero worker count
/// are reported as errors, shapes first. Whatever valid mode is chosen,
/// the result is the same matrix, entry for entry.
pub fn compute(op: MatrixOp, m1: &Vec<Vec<i32>>, m2: &Vec<Vec<i32>>, mode: Mode) -> (r: Result<
    Vec<Vec<i32>>,
    EngineError,
>)
    requires
        shapes_ok(op, grid_view(m1@), grid_view(m2@)) ==> op_fits(
            op,
            grid_view(m1@),
            grid_view(m2@),
        ),
    ensures
        (r is Ok) <==> (shapes_ok(op, grid_view(m1@), grid_view(m2@)) && mode_ok(mode)),
        !shapes_ok(op, grid_view(m1@), grid_view(m2@)) ==> r == Result::<
            Vec<Vec<i32>>,
            EngineError,
        >::Err(EngineError::DimensionMismatch),
        shapes_ok(op, grid_view(m1@), grid_view(m2@)) && !mode_ok(mode) ==> r == Result::<
            Vec<Vec<i32>>,
            EngineError,
        >::Err(EngineError::ZeroWorkers),
        r is Ok ==> r->Ok_0@.len() == m1@.len(),
        r is Ok ==> forall|i: int|
            0 <= i < m1@.len() ==> (#[trigger] r->Ok_0@[i])@.len() == op_cols(
                op,
                grid_view(m1@),
                grid_view(m2@),
            ),
        r is Ok ==> forall|i: int, j: int|
            0 <= i < m1@.len() && 0 <= j < op_cols(op, grid_view(m1@), grid_view(m2@))
                ==> #[trigger] grid_view(r->Ok_0@)[i][j] == op_entry(
                op,
                grid_view(m1@),
                grid_view(m2@),
                i,
                j,
            ),
{
    if !check_shapes(op, m1, m2) {
        return Err(EngineError::DimensionMismatch);
    }
    let threads = match mode {
        Mode::Sequential => 0,
        Mode::Threaded(w) => {
            if w == 0 {
                return Err(EngineError::ZeroWorkers);
            }
            w
        },
    };
    let result = match op {
        MatrixOp::Sum => {
            if threads == 0 {
                sum_matrix_sequential(m1, m2)
            } else {
                sum_matrix_partitioned(m1, m2, threads)
            }
        },
        MatrixOp::Sub => {
            if threads == 0 {
                sub_matrix_sequential(m1, m2)
            } else {
                sub_matrix_partitioned(m1, m2, threads)
            }
        },
        MatrixOp::Product => {
            if threads == 0 {
                mul_matrix_sequential(m1, m2)
            } else {
                mul_matrix_partitioned(m1, m2, threads)
            }
        },
    };
    Ok(result)
}

} // verus!
