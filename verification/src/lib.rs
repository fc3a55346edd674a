//! A chunked data-parallel computation engine over 2-D grids.
//!
//! The engine splits a rectangular grid into contiguous row partitions,
//! computes each partition independently through a pure worker function,
//! and joins the partial results in partition order. Two instances share
//! this skeleton: a cellular-automaton stencil step and dense integer
//! matrix arithmetic. Every partitioned run is proved to return exactly
//! the grid that the single-threaded reference computation returns.

pub mod engine;
pub mod grid;
pub mod life;
pub mod matrix;
pub mod partition;
pub mod random;

pub use engine::{EngineError, MatrixOp, Mode, advance, compute};
pub use grid::{board_get_cell, board_new, board_set_cell};
pub use life::{board_get_neighbours, copy_board, step_partition, update_partitioned,
    update_sequential};
pub use matrix::{identity_matrix, mul_matrix_partitioned, mul_matrix_sequential,
    mul_rows_partition, sub_matrix_partitioned, sub_matrix_sequential, sub_rows_partition,
    sum_matrix_partitioned, sum_matrix_sequential, sum_rows_partition, zero_matrix};
pub use partition::{Partition, make_partitions};
pub use random::{create_matrix_from_random, randomize_board};
