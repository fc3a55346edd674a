use grid_engine::{
    compute, create_matrix_from_random, identity_matrix, mul_matrix_partitioned,
    mul_matrix_sequential, mul_rows_partition, sub_matrix_partitioned, sub_matrix_sequential,
    sub_rows_partition, sum_matrix_partitioned, sum_matrix_sequential, sum_rows_partition,
    zero_matrix, EngineError, MatrixOp, Mode,
};

fn mat(rows: &[&[i32]]) -> Vec<Vec<i32>> {
    rows.iter().map(|r| r.to_vec()).collect()
}

#[test]
fn sum_sequential_exact() {
    let a = mat(&[&[1, 2], &[3, 4]]);
    let b = mat(&[&[10, 20], &[30, 40]]);
    assert_eq!(sum_matrix_sequential(&a, &b), mat(&[&[11, 22], &[33, 44]]));
}

#[test]
fn sub_sequential_exact() {
    let a = mat(&[&[5, 7, 9], &[1, 0, -3]]);
    let b = mat(&[&[1, 2, 3], &[4, 5, 6]]);
    assert_eq!(sub_matrix_sequential(&a, &b), mat(&[&[4, 5, 6], &[-3, -5, -9]]));
}

#[test]
fn mul_sequential_exact() {
    let a = mat(&[&[1, 2, 3], &[4, 5, 6]]);
    let b = mat(&[&[7, 8], &[9, 10], &[11, 12]]);
    assert_eq!(mul_matrix_sequential(&a, &b), mat(&[&[58, 64], &[139, 154]]));
}

#[test]
fn partitioned_ops_equal_sequential() {
    let a = mat(&[
        &[3, -1, 4, 1],
        &[-5, 9, 2, 6],
        &[5, 3, -5, 8],
        &[9, -7, 9, 3],
        &[2, 3, 8, -4],
    ]);
    let b = mat(&[
        &[2, 7, -1, 8],
        &[2, 8, 1, -8],
        &[-2, 8, 4, 5],
        &[9, 0, 4, 5],
        &[2, -3, 5, 3],
    ]);
    let sum_seq = sum_matrix_sequential(&a, &b);
    let sub_seq = sub_matrix_sequential(&a, &b);
    for threads in [1, 2, 4, 5] {
        assert_eq!(sum_matrix_partitioned(&a, &b, threads), sum_seq);
        assert_eq!(sub_matrix_partitioned(&a, &b, threads), sub_seq);
    }
    let c = mat(&[
        &[1, 2, 3],
        &[6, 7, 8],
        &[11, 12, 13],
        &[16, 17, 18],
    ]);
    let mul_seq = mul_matrix_sequential(&a, &c);
    for threads in [1, 2, 4, 5] {
        assert_eq!(mul_matrix_partitioned(&a, &c, threads), mul_seq);
    }
}

#[test]
fn workers_compute_only_their_rows() {
    let a = mat(&[&[1, 2], &[3, 4], &[5, 6], &[7, 8]]);
    let b = mat(&[&[1, 1], &[1, 1], &[1, 1], &[1, 1]]);
    assert_eq!(sum_rows_partition(&a, &b, 1, 3), mat(&[&[4, 5], &[6, 7]]));
    assert_eq!(sub_rows_partition(&a, &b, 1, 3), mat(&[&[2, 3], &[4, 5]]));
    let c = mat(&[&[1, 0], &[0, 2]]);
    let d = mat(&[&[3, 4], &[5, 6]]);
    assert_eq!(mul_rows_partition(&c, &d, 1, 2), mat(&[&[10, 12]]));
    assert_eq!(sum_rows_partition(&a, &b, 2, 2), Vec::<Vec<i32>>::new());
}

#[test]
fn sum_with_zero_matrix_is_identity() {
    let a = mat(&[&[4, -2, 7], &[0, 5, -9]]);
    let z = zero_matrix(2, 3);
    assert_eq!(compute(MatrixOp::Sum, &a, &z, Mode::Sequential), Ok(a.clone()));
    assert_eq!(compute(MatrixOp::Sum, &a, &z, Mode::Threaded(2)), Ok(a));
}

#[test]
fn product_with_identity_matrix_is_identity() {
    let a = mat(&[&[4, -2, 7], &[0, 5, -9], &[1, 1, 2]]);
    let id = identity_matrix(3);
    assert_eq!(compute(MatrixOp::Product, &id, &a, Mode::Sequential), Ok(a.clone()));
    assert_eq!(compute(MatrixOp::Product, &id, &a, Mode::Threaded(3)), Ok(a));
}

#[test]
fn compute_rejects_shape_mismatch() {
    let a = mat(&[&[1, 2], &[3, 4]]);
    let b = mat(&[&[1, 2, 3], &[4, 5, 6]]);
    assert_eq!(compute(MatrixOp::Sum, &a, &b, Mode::Sequential), Err(EngineError::DimensionMismatch));
    assert_eq!(compute(MatrixOp::Sub, &a, &b, Mode::Sequential), Err(EngineError::DimensionMismatch));
    let c = mat(&[&[1, 2, 3]]);
    assert_eq!(
        compute(MatrixOp::Product, &c, &a, Mode::Sequential),
        Err(EngineError::DimensionMismatch)
    );
    let ragged = mat(&[&[1, 2], &[3]]);
    assert_eq!(
        compute(MatrixOp::Sum, &ragged, &ragged, Mode::Sequential),
        Err(EngineError::DimensionMismatch)
    );
}

#[test]
fn compute_rejects_zero_workers() {
    let a = mat(&[&[1, 2], &[3, 4]]);
    assert_eq!(compute(MatrixOp::Sum, &a, &a, Mode::Threaded(0)), Err(EngineError::ZeroWorkers));
}

#[test]
fn compute_is_deterministic_across_runs() {
    let a = mat(&[&[2, 4, 6], &[1, 3, 5], &[0, 2, 4]]);
    let b = mat(&[&[1, 1, 1], &[2, 2, 2], &[3, 3, 3]]);
    let first = compute(MatrixOp::Product, &a, &b, Mode::Threaded(2));
    let second = compute(MatrixOp::Product, &a, &b, Mode::Threaded(2));
    assert_eq!(first, second);
}

#[test]
fn random_matrix_has_shape_and_range() {
    let m = create_matrix_from_random(3, 4, 10);
    assert_eq!(m.len(), 3);
    for row in &m {
        assert_eq!(row.len(), 4);
        assert!(row.iter().all(|&v| 0 <= v && v < 10));
    }
    // With a bound of 1 every draw is forced to 0.
    let z = create_matrix_from_random(2, 2, 1);
    assert_eq!(z, zero_matrix(2, 2));
}
