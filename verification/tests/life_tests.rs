use grid_engine::{
    advance, board_get_cell, board_get_neighbours, board_new, board_set_cell, copy_board,
    make_partitions, randomize_board, step_partition, update_partitioned, update_sequential,
    EngineError, Mode,
};

fn board_from(rows: &[&[u8]]) -> Vec<Vec<bool>> {
    rows.iter().map(|r| r.iter().map(|&c| c == 1).collect()).collect()
}

#[test]
fn new_board_is_all_dead() {
    let b = board_new(4, 3);
    assert_eq!(b.len(), 3);
    for row in &b {
        assert_eq!(row.len(), 4);
        assert!(row.iter().all(|&c| !c));
    }
}

#[test]
fn get_and_set_cell() {
    let mut b = board_new(5, 4);
    board_set_cell(&mut b, 2, 3, true);
    assert!(board_get_cell(&b, 2, 3));
    assert!(!board_get_cell(&b, 3, 2));
    board_set_cell(&mut b, 2, 3, false);
    assert!(!board_get_cell(&b, 2, 3));
}

#[test]
fn partitions_tile_exactly() {
    let parts = make_partitions(10, 4);
    assert_eq!(parts.len(), 4);
    assert_eq!(parts[0].start, 0);
    assert_eq!(parts[parts.len() - 1].end, 10);
    for i in 0..parts.len() - 1 {
        assert_eq!(parts[i].end, parts[i + 1].start);
    }
    let starts: Vec<usize> = parts.iter().map(|p| p.start).collect();
    let ends: Vec<usize> = parts.iter().map(|p| p.end).collect();
    assert_eq!(starts, vec![0, 2, 5, 7]);
    assert_eq!(ends, vec![2, 5, 7, 10]);
}

#[test]
fn partitions_with_more_workers_than_rows() {
    let parts = make_partitions(2, 4);
    assert_eq!(parts.len(), 4);
    assert_eq!(parts[0].start, 0);
    assert_eq!(parts[3].end, 2);
    for i in 0..3 {
        assert_eq!(parts[i].end, parts[i + 1].start);
    }
    for p in &parts {
        assert!(p.start <= p.end);
    }
}

#[test]
fn lone_center_cell_dies() {
    let b = board_from(&[&[0, 0, 0], &[0, 1, 0], &[0, 0, 0]]);
    let next = update_sequential(b, 3, 3);
    for row in &next {
        assert!(row.iter().all(|&c| !c));
    }
}

#[test]
fn plus_shape_becomes_ring() {
    let b = board_from(&[&[0, 1, 0], &[1, 1, 1], &[0, 1, 0]]);
    let next = update_sequential(b, 3, 3);
    let expected = board_from(&[&[1, 1, 1], &[1, 0, 1], &[1, 1, 1]]);
    assert_eq!(next, expected);
}

#[test]
fn corner_cell_has_no_neighbours() {
    let mut b = board_new(5, 4);
    board_set_cell(&mut b, 0, 0, true);
    assert_eq!(board_get_neighbours(&b, 0, 0, 5, 4), 0);
    let next = update_sequential(b, 5, 4);
    assert!(!board_get_cell(&next, 0, 0));
}

#[test]
fn neighbour_count_at_edges() {
    // A 2x2 block in the top-left corner.
    let b = board_from(&[&[1, 1, 0], &[1, 1, 0], &[0, 0, 0]]);
    assert_eq!(board_get_neighbours(&b, 0, 0, 3, 3), 3);
    assert_eq!(board_get_neighbours(&b, 1, 1, 3, 3), 3);
    assert_eq!(board_get_neighbours(&b, 2, 2, 3, 3), 1);
    // A block is a still life.
    let next = update_sequential(b.clone(), 3, 3);
    assert_eq!(next, b);
}

#[test]
fn copy_board_takes_halo_rows() {
    let b = board_from(&[&[1, 0], &[0, 1], &[1, 1], &[0, 0]]);
    // Middle partition [1, 3): halo extends to rows [0, 4).
    let slice = copy_board(&b, 1, 3, 2, 4);
    assert_eq!(slice, b);
    // Top partition [0, 2): halo extends to rows [0, 3).
    let top = copy_board(&b, 0, 2, 2, 4);
    assert_eq!(top, b[0..3].to_vec());
    // Bottom partition [3, 4): halo extends to rows [2, 4).
    let bottom = copy_board(&b, 3, 4, 2, 4);
    assert_eq!(bottom, b[2..4].to_vec());
}

#[test]
fn step_partition_matches_sequential_rows() {
    let b = board_from(&[
        &[0, 1, 0, 1, 1],
        &[1, 1, 0, 0, 1],
        &[0, 0, 1, 1, 0],
        &[1, 0, 1, 0, 1],
    ]);
    let whole = update_sequential(b.clone(), 5, 4);
    let slice = copy_board(&b, 1, 3, 5, 4);
    let chunk = step_partition(&slice, 1, 3, 5, 4);
    assert_eq!(chunk, whole[1..3].to_vec());
}

#[test]
fn partitioned_step_equals_sequential() {
    let b = board_from(&[
        &[0, 1, 0, 1, 1, 0],
        &[1, 1, 0, 0, 1, 1],
        &[0, 0, 1, 1, 0, 0],
        &[1, 0, 1, 0, 1, 1],
        &[0, 1, 1, 1, 0, 0],
    ]);
    let seq = update_sequential(b.clone(), 6, 5);
    for threads in [1, 2, 4, 5] {
        let par = update_partitioned(b.clone(), 6, 5, threads);
        assert_eq!(par, seq);
    }
}

#[test]
fn threaded_step_is_deterministic() {
    let b = board_from(&[
        &[1, 0, 1, 0],
        &[0, 1, 1, 0],
        &[1, 1, 0, 1],
    ]);
    let first = update_partitioned(b.clone(), 4, 3, 3);
    let second = update_partitioned(b.clone(), 4, 3, 3);
    assert_eq!(first, second);
}

#[test]
fn advance_dispatches_both_modes() {
    let b = board_from(&[&[0, 1, 0], &[1, 1, 1], &[0, 1, 0]]);
    let expected = board_from(&[&[1, 1, 1], &[1, 0, 1], &[1, 1, 1]]);
    let seq = advance(b.clone(), 3, 3, Mode::Sequential);
    assert_eq!(seq, Ok(expected.clone()));
    let par = advance(b, 3, 3, Mode::Threaded(2));
    assert_eq!(par, Ok(expected));
}

#[test]
fn advance_rejects_bad_shapes_and_zero_workers() {
    let b = board_from(&[&[0, 1, 0], &[1, 1, 1], &[0, 1, 0]]);
    assert_eq!(advance(b.clone(), 4, 3, Mode::Sequential), Err(EngineError::DimensionMismatch));
    assert_eq!(advance(b.clone(), 3, 2, Mode::Threaded(2)), Err(EngineError::DimensionMismatch));
    assert_eq!(advance(b, 3, 3, Mode::Threaded(0)), Err(EngineError::ZeroWorkers));
}

#[test]
fn randomize_full_chance_fills_board() {
    let mut b = board_new(6, 4);
    randomize_board(&mut b, 4, 6, 10);
    for row in &b {
        assert_eq!(row.len(), 6);
        assert!(row.iter().all(|&c| c));
    }
}

#[test]
fn randomize_zero_chance_changes_nothing() {
    let mut b = board_new(3, 3);
    board_set_cell(&mut b, 1, 1, true);
    randomize_board(&mut b, 3, 3, 0);
    let expected = board_from(&[&[0, 0, 0], &[0, 1, 0], &[0, 0, 0]]);
    assert_eq!(b, expected);
}

#[test]
fn neighbours_in_last_row_are_counted() {
    // A live cell in the bottom row must be seen by the row above it:
    // bounds are the true grid bounds in both axes.
    let b = board_from(&[&[0, 0], &[0, 0], &[1, 0]]);
    assert_eq!(board_get_neighbours(&b, 1, 0, 2, 3), 1);
    assert_eq!(board_get_neighbours(&b, 1, 1, 2, 3), 1);
    assert_eq!(board_get_neighbours(&b, 2, 1, 2, 3), 1);
    assert_eq!(board_get_neighbours(&b, 2, 0, 2, 3), 0);
}

#[test]
fn non_square_board_updates_symmetrically() {
    // A horizontal blinker in a 3x5 board flips to vertical and back.
    let b = board_from(&[&[0, 0, 0, 0, 0], &[0, 1, 1, 1, 0], &[0, 0, 0, 0, 0]]);
    let vertical = board_from(&[&[0, 0, 1, 0, 0], &[0, 0, 1, 0, 0], &[0, 0, 1, 0, 0]]);
    let once = update_sequential(b.clone(), 5, 3);
    assert_eq!(once, vertical);
    let twice = update_partitioned(once, 5, 3, 2);
    assert_eq!(twice, b);
}
