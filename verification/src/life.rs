//! The cellular-automaton stencil: Moore-neighbour counting, the Conway
//! transition rule, the single-threaded reference step, and the
//! partitioned step built from halo slices, proved equal to the
//! reference.

use vstd::prelude::*;
use crate::grid::{grid_view, is_grid, board_get_cell};
use crate::partition::{make_partitions, part_end, part_start};

verus! {

/// 1 if `(r, c)` lies inside the `rows x cols` grid and holds a live
/// cell, else 0. Coordinates outside the grid never count: no
/// wraparound.
pub open spec fn live_at(b: Seq<Seq<bool>>, rows: int, cols: int, r: int, c: int) -> int {
    if 0 <= r < rows && 0 <= c < cols && b[r][c] {
        1int
    } else {
        0int
    }
}

/// The number of live cells among the 8 Moore neighbours of `(r, c)`,
/// counted against the true grid bounds, symmetrically in both axes.
pub open spec fn neighbours_of(b: Seq<Seq<bool>>, rows: int, cols: int, r: int, c: int) -> int {
    live_at(b, rows, cols, r - 1, c - 1) + live_at(b, rows, cols, r - 1, c) + live_at(
        b,
        rows,
        cols,
        r - 1,
        c + 1,
    ) + live_at(b, rows, cols, r, c - 1) + live_at(b, rows, cols, r, c + 1) + live_at(
        b,
        rows,
        cols,
        r + 1,
        c - 1,
    ) + live_at(b, rows, cols, r + 1, c) + live_at(b, rows, cols, r + 1, c + 1)
}

/// The Conway transition: birth on exactly 3 live neighbours, survival
/// on exactly 2, death otherwise.
pub open spec fn next_cell(cur: bool, neighbours: int) -> bool {
    neighbours == 3 || (neighbours == 2 && cur)
}

/// The whole next generation of a `rows x cols` board.
pub open spec fn next_gen(b: Seq<Seq<bool>>, rows: int, cols: int) -> Seq<Seq<bool>> {
    Seq::new(
        rows as nat,
        |i: int| Seq::new(cols as nat, |j: int| next_cell(b[i][j], neighbours_of(b, rows, cols, i, j))),
    )
}

/// Counts the live Moore neighbours of `(x, y)` on a board of `height`
/// rows and `width` columns, excluding every coordinate outside the
/// board.
pub fn board_get_neighbours(
    board: &Vec<Vec<bool>>,
    x: usize,
    y: usize,
    width: usize,
    height: usize,
) -> (neighbours: i32)
    requires
        is_grid(grid_view(board@), height as int, width as int),
        x < height,
        y < width,
    ensures
        neighbours == neighbours_of(
            grid_view(board@),
            height as int,
            width as int,
            x as int,
            y as int,
        ),
        0 <= neighbours <= 8,
{
    proof {
        assert(forall|i: int|
            0 <= i < height ==> (#[trigger] board@[i])@ == grid_view(board@)[i]);
    }
    let mut neighbours: i32 = 0;
    if x > 0 {
        if y > 0 && board[x - 1][y - 1] {
            neighbours = neighbours + 1;
        }
        if board[x - 1][y] {
            neighbours = neighbours + 1;
        }
        if y + 1 < width && board[x - 1][y + 1] {
            neighbours = neighbours + 1;
        }
    }
    if y > 0 && board[x][y - 1] {
        neighbours = neighbours + 1;
    }
    if y + 1 < width && board[x][y + 1] {
        neighbours = neighbours + 1;
    }
    if x + 1 < height {
        if y > 0 && board[x + 1][y - 1] {
            neighbours = neighbours + 1;
        }
        if board[x + 1][y] {
            neighbours = neighbours + 1;
        }
        if y + 1 < width && board[x + 1][y + 1] {
            neighbours = neighbours + 1;
        }
    }
    neighbours
}

/// The single-threaded reference step: returns the next generation of
/// the whole board.
pub fn update_sequential(board: Vec<Vec<bool>>, width: usize, height: usize) -> (new_cells: Vec<
    Vec<bool>,
>)
    requires
        is_grid(grid_view(board@), height as int, width as int),
    ensures
        grid_view(new_cells@) == next_gen(grid_view(board@), height as int, width as int),
        is_grid(grid_view(new_cells@), height as int, width as int),
{
    let ghost b = grid_view(board@);
    let mut new_cells: Vec<Vec<bool>> = Vec::new();
    for i in 0..height
        invariant
            is_grid(b, height as int, width as int),
            b == grid_view(board@),
            new_cells@.len() == i,
            forall|r: int|
                0 <= r < i ==> (#[trigger] new_cells@[r])@ == next_gen(
                    b,
                    height as int,
                    width as int,
                )[r],
    {
        let mut row: Vec<bool> = Vec::new();
        for j in 0..width
            invariant
                is_grid(b, height as int, width as int),
                b == grid_view(board@),
                i < height,
                row@.len() == j,
                forall|c: int|
                    0 <= c < j ==> #[trigger] row@[c] == next_cell(
                        b[i as int][c],
                        neighbours_of(b, height as int, width as int, i as int, c),
                    ),
        {
            let neighbours = board_get_neighbours(&board, i, j, width, height);
            let cell = board_get_cell(&board, i, j);
            let new_cell = match neighbours {
                3 => true,
                2 => cell,
                _ => false,
            };
            row.push(new_cell);
        }
        proof {
            assert(row@ =~= next_gen(b, height as int, width as int)[i as int]);
        }
        new_cells.push(row);
    }
    proof {
        assert(grid_view(new_cells@) =~= next_gen(b, height as int, width as int));
    }
    new_cells
}

/// First row of the halo-extended slice for a partition starting at
/// `start`: one extra row above, unless the partition touches the top
/// of the board.
pub open spec fn halo_lo(start: int) -> int {
    if start != 0 {
        start - 1
    } else {
        start
    }
}

/// One past the last row of the halo-extended slice for a partition
/// ending at `end`: one extra row below, unless the partition touches
/// the bottom of the board.
pub open spec fn halo_hi(end: int, height: int) -> int {
    if end != height {
        end + 1
    } else {
        end
    }
}

/// Copies the halo-extended slice `[halo_lo(start), halo_hi(end, height))`
/// of the board: the partition's own rows plus the neighbouring row on
/// each side that exists.
pub fn copy_board(
    board: &Vec<Vec<bool>>,
    start: usize,
    end: usize,
    width: usize,
    height: usize,
) -> (new_board: Vec<Vec<bool>>)
    requires
        is_grid(grid_view(board@), height as int, width as int),
        start <= end <= height,
    ensures
        grid_view(new_board@) == grid_view(board@).subrange(
            halo_lo(start as int),
            halo_hi(end as int, height as int),
        ),
{
    let ghost b = grid_view(board@);
    let mut new_board: Vec<Vec<bool>> = Vec::new();
    let mut sc: usize = 0;
    if start != 0 {
        sc = 1;
    }
    let mut ec: usize = 0;
    if end != height {
        ec = 1;
    }
    let lo = start - sc;
    let hi = end + ec;
    for i in lo..hi
        invariant
            is_grid(b, height as int, width as int),
            b == grid_view(board@),
            lo == halo_lo(start as int),
            hi == halo_hi(end as int, height as int),
            lo <= i <= hi,
            hi <= height,
            new_board@.len() == i - lo,
            forall|r: int|
                0 <= r < i - lo ==> (#[trigger] new_board@[r])@ == b[lo + r],
    {
        let mut row: Vec<bool> = Vec::new();
        for j in 0..width
            invariant
                is_grid(b, height as int, width as int),
                b == grid_view(board@),
                lo <= i < hi <= height,
                row@.len() == j,
                forall|c: int| 0 <= c < j ==> #[trigger] row@[c] == b[i as int][c],
        {
            proof {
                assert(board@[i as int]@ == b[i as int]);
            }
            row.push(board[i][j]);
        }
        proof {
            assert(row@ =~= b[i as int]);
        }
        new_board.push(row);
    }
    proof {
        assert(grid_view(new_board@) =~= b.subrange(
            halo_lo(start as int),
            halo_hi(end as int, height as int),
        ));
    }
    new_board
}

/// The worker task of the stencil engine: from the halo-extended slice
/// of its partition alone, computes exactly `end - start` output rows,
/// the next generation of rows `[start, end)`.
pub fn step_partition(
    slice: &Vec<Vec<bool>>,
    start: usize,
    end: usize,
    width: usize,
    height: usize,
) -> (new_cells: Vec<Vec<bool>>)
    requires
        start <= end <= height,
        is_grid(
            grid_view(slice@),
            halo_hi(end as int, height as int) - halo_lo(start as int),
            width as int,
        ),
    ensures
        new_cells@.len() == end - start,
        forall|k: int|
            0 <= k < end - start ==> (#[trigger] new_cells@[k])@ == next_gen(
                grid_view(slice@),
                halo_hi(end as int, height as int) - halo_lo(start as int),
                width as int,
            )[k + start - halo_lo(start as int)],
{
    let ghost s = grid_view(slice@);
    let ghost l = halo_hi(end as int, height as int) - halo_lo(start as int);
    let mut add_to_start: usize = 1;
    if start == 0 {
        add_to_start = 0;
    }
    let rows = slice.len();
    let mut new_cells: Vec<Vec<bool>> = Vec::new();
    let local_end = add_to_start + (end - start);
    for i in add_to_start..local_end
        invariant
            s == grid_view(slice@),
            l == halo_hi(end as int, height as int) - halo_lo(start as int),
            is_grid(s, l, width as int),
            rows == l,
            add_to_start == start - halo_lo(start as int),
            local_end == add_to_start + (end - start),
            local_end <= rows,
            start <= end <= height,
            new_cells@.len() == i - add_to_start,
            forall|k: int|
                0 <= k < i - add_to_start ==> (#[trigger] new_cells@[k])@ == next_gen(
                    s,
                    l,
                    width as int,
                )[k + add_to_start],
    {
        let mut row: Vec<bool> = Vec::new();
        for j in 0..width
            invariant
                s == grid_view(slice@),
                l == halo_hi(end as int, height as int) - halo_lo(start as int),
                is_grid(s, l, width as int),
                rows == l,
                add_to_start <= i < local_end <= rows,
                row@.len() == j,
                forall|c: int|
                    0 <= c < j ==> #[trigger] row@[c] == next_cell(
                        s[i as int][c],
                        neighbours_of(s, l, width as int, i as int, c),
                    ),
        {
            let neighbours = board_get_neighbours(slice, i, j, width, rows);
            let cell = board_get_cell(slice, i, j);
            let new_cell = match neighbours {
                3 => true,
                2 => cell,
                _ => false,
            };
            row.push(new_cell);
        }
        proof {
            assert(row@ =~= next_gen(s, l, width as int)[i as int]);
        }
        new_cells.push(row);
    }
    new_cells
}

/// A live-cell test moved from the whole board into a halo slice:
/// for any row a partition can see, the slice and the board agree.
proof fn lemma_live_slice(
    b: Seq<Seq<bool>>,
    height: int,
    width: int,
    start: int,
    end: int,
    r: int,
    c: int,
)
    requires
        is_grid(b, height, width),
        0 <= start <= end <= height,
        start - 1 <= r <= end,
    ensures
        live_at(
            b.subrange(halo_lo(start), halo_hi(end, height)),
            halo_hi(end, height) - halo_lo(start),
            width,
            r - halo_lo(start),
            c,
        ) == live_at(b, height, width, r, c),
{
    let lo = halo_lo(start);
    let hi = halo_hi(end, height);
    let s = b.subrange(lo, hi);
    if 0 <= r - lo < hi - lo {
        assert(s[r - lo] == b[r]);
    }
}

/// Neighbour counts moved from the whole board into a halo slice: for
/// every cell a partition owns, the slice sees exactly the neighbours
/// that the whole board sees.
proof fn lemma_neighbours_slice(
    b: Seq<Seq<bool>>,
    height: int,
    width: int,
    start: int,
    end: int,
    r: int,
    c: int,
)
    requires
        is_grid(b, height, width),
        0 <= start <= end <= height,
        start <= r < end,
    ensures
        neighbours_of(
            b.subrange(halo_lo(start), halo_hi(end, height)),
            halo_hi(end, height) - halo_lo(start),
            width,
            r - halo_lo(start),
            c,
        ) == neighbours_of(b, height, width, r, c),
{
    lemma_live_slice(b, height, width, start, end, r - 1, c - 1);
    lemma_live_slice(b, height, width, start, end, r - 1, c);
    lemma_live_slice(b, height, width, start, end, r - 1, c + 1);
    lemma_live_slice(b, height, width, start, end, r, c - 1);
    lemma_live_slice(b, height, width, start, end, r, c + 1);
    lemma_live_slice(b, height, width, start, end, r + 1, c - 1);
    lemma_live_slice(b, height, width, start, end, r + 1, c);
    lemma_live_slice(b, height, width, start, end, r + 1, c + 1);
}

/// The equivalence at the heart of the engine: the next generation
/// computed on a partition's halo slice matches, row for row, the next
/// generation of the whole board over the rows that the partition owns.
pub proof fn lemma_slice_step(b: Seq<Seq<bool>>, height: int, width: int, start: int, end: int)
    requires
        is_grid(b, height, width),
        0 <= start <= end <= height,
    ensures
        forall|k: int|
            0 <= k < end - start ==> #[trigger] next_gen(
                b.subrange(halo_lo(start), halo_hi(end, height)),
                halo_hi(end, height) - halo_lo(start),
                width,
            )[k + start - halo_lo(start)] == next_gen(b, height, width)[start + k],
{
    let lo = halo_lo(start);
    let hi = halo_hi(end, height);
    let s = b.subrange(lo, hi);
    let l = hi - lo;
    assert forall|k: int| 0 <= k < end - start implies #[trigger] next_gen(s, l, width)[k + start
        - lo] == next_gen(b, height, width)[start + k] by {
        let gi = start + k;
        let li = gi - lo;
        assert forall|j: int| 0 <= j < width implies next_gen(s, l, width)[li][j] == next_gen(
            b,
            height,
            width,
        )[gi][j] by {
            assert(s[li] == b[gi]);
            lemma_neighbours_slice(b, height, width, start, end, gi, j);
        }
        assert(next_gen(s, l, width)[li] =~= next_gen(b, height, width)[gi]);
    }
}

/// The partitioned step: divides the board's rows among `threads`
/// workers, runs each worker's pure task on its halo slice, and joins
/// the partial results in partition order. Returns exactly the grid
/// that the single-threaded reference step returns; each worker task
/// reads only its own slice, so the tasks may run concurrently without
/// sharing mutable state.
pub fn update_partitioned(board: Vec<Vec<bool>>, width: usize, height: usize, threads: usize) -> (result: Vec<Vec<bool>>)
    requires
        is_grid(grid_view(board@), height as int, width as int),
        threads >= 1,
    ensures
        grid_view(result@) == next_gen(grid_view(board@), height as int, width as int),
        is_grid(grid_view(result@), height as int, width as int),
{
    let ghost b = grid_view(board@);
    let parts = make_partitions(height, threads);
    let mut result: Vec<Vec<bool>> = Vec::new();
    for i in 0..threads
        invariant
            b == grid_view(board@),
            is_grid(b, height as int, width as int),
            threads >= 1,
            parts@.len() == threads,
            forall|k: int| 0 <= k < threads - 1 ==> (#[trigger] parts@[k]).end == parts@[k + 1].start,
            forall|k: int|
                0 <= k < threads ==> (#[trigger] parts@[k]).start <= parts@[k].end <= height,
            parts@[0].start == 0,
            parts@[threads - 1].end == height,
            result@.len() == if i == 0 {
                0int
            } else {
                parts@[i - 1].end as int
            },
            forall|r: int|
                0 <= r < result@.len() ==> (#[trigger] result@[r])@ == next_gen(
                    b,
                    height as int,
                    width as int,
                )[r],
    {
        let p = parts[i];
        let slice = copy_board(&board, p.start, p.end, width, height);
        let mut chunk = step_partition(&slice, p.start, p.end, width, height);
        proof {
            lemma_slice_step(b, height as int, width as int, p.start as int, p.end as int);
        }
        result.append(&mut chunk);
    }
    proof {
        assert(grid_view(result@) =~= next_gen(b, height as int, width as int));
    }
    result
}



/// What one worker hands back to the joiner: the next generation of its
/// halo-extended slice, restricted to the rows the partition owns.
pub open spec fn worker_output(
    b: Seq<Seq<bool>>,
    height: int,
    width: int,
    start: int,
    end: int,
) -> Seq<Seq<bool>> {
    next_gen(
        b.subrange(halo_lo(start), halo_hi(end, height)),
        halo_hi(end, height) - halo_lo(start),
        width,
    ).subrange(start - halo_lo(start), end - halo_lo(start))
}

/// The outputs of the first `n` of `threads` workers, concatenated in
/// partition order: what the joiner has assembled after `n` joins.
pub open spec fn joined_outputs(
    b: Seq<Seq<bool>>,
    height: int,
    width: int,
    threads: int,
    n: int,
) -> Seq<Seq<bool>>
    decreases n,
{
    if n <= 0 {
        Seq::empty()
    } else {
        joined_outputs(b, height, width, threads, n - 1) + worker_output(
            b,
            height,
            width,
            part_start(n - 1, height, threads),
            part_end(n - 1, height, threads),
        )
    }
}

proof fn lemma_joined_outputs_prefix(
    b: Seq<Seq<bool>>,
    height: int,
    width: int,
    threads: int,
    n: int,
)
    requires
        is_grid(b, height, width),
        threads >= 1,
        0 <= n <= threads,
    ensures
        joined_outputs(b, height, width, threads, n) == next_gen(b, height, width).subrange(
            0,
            if n == 0 {
                0int
            } else {
                part_end(n - 1, height, threads)
            },
        ),
    decreases n,
{
    crate::partition::lemma_partition_cover(height, threads);
    if n == 0 {
        assert(joined_outputs(b, height, width, threads, 0) =~= next_gen(
            b,
            height,
            width,
        ).subrange(0, 0));
    } else {
        lemma_joined_outputs_prefix(b, height, width, threads, n - 1);
        let start = part_start(n - 1, height, threads);
        let end = part_end(n - 1, height, threads);
        assert(0 <= start <= end <= height);
        if n - 1 > 0 {
            assert(part_end(n - 2, height, threads) == start);
        }
        lemma_slice_step(b, height, width, start, end);
        let w_out = worker_output(b, height, width, start, end);
        assert forall|k: int| 0 <= k < end - start implies w_out[k] == next_gen(
            b,
            height,
            width,
        )[start + k] by {
            assert(next_gen(
                b.subrange(halo_lo(start), halo_hi(end, height)),
                halo_hi(end, height) - halo_lo(start),
                width,
            )[k + start - halo_lo(start)] == next_gen(b, height, width)[start + k]);
        }
        assert(joined_outputs(b, height, width, threads, n) =~= next_gen(
            b,
            height,
            width,
        ).subrange(0, end));
    }
}

/// Law: sequential/parallel equivalence. For every rectangular board
/// and every worker count, concatenating the workers' outputs in
/// partition order yields exactly the next generation that the
/// sequential reference computes - no row is lost, duplicated or
/// reordered, and every halo sees the same neighbours as the whole
/// board.
pub proof fn lemma_partitioned_join_equals_sequential(
    b: Seq<Seq<bool>>,
    height: int,
    width: int,
    threads: int,
)
    requires
        is_grid(b, height, width),
        threads >= 1,
    ensures
        joined_outputs(b, height, width, threads, threads) == next_gen(b, height, width),
{
    crate::partition::lemma_partition_cover(height, threads);
    lemma_joined_outputs_prefix(b, height, width, threads, threads);
    assert(next_gen(b, height, width).subrange(0, height) =~= next_gen(b, height, width));
}


/// Law: the partitioned run is deterministic. Its assembled output is a
/// function of the input board alone - independent of the worker count
/// and of the order in which workers finish - so two runs on identical
/// inputs agree, whatever their configurations.
pub proof fn lemma_partitioned_run_deterministic(
    b: Seq<Seq<bool>>,
    height: int,
    width: int,
    t1: int,
    t2: int,
)
    requires
        is_grid(b, height, width),
        t1 >= 1,
        t2 >= 1,
    ensures
        joined_outputs(b, height, width, t1, t1) == joined_outputs(b, height, width, t2, t2),
{
    lemma_partitioned_join_equals_sequential(b, height, width, t1);
    lemma_partitioned_join_equals_sequential(b, height, width, t2);
}

/// Law: a live cell in the top-left corner of an otherwise-dead board
/// has exactly 0 counted neighbours: coordinates outside the board are
/// never read and never wrap around.
pub proof fn lemma_corner_cell_has_no_neighbours(b: Seq<Seq<bool>>, rows: int, cols: int)
    requires
        is_grid(b, rows, cols),
        rows >= 1,
        cols >= 1,
        forall|i: int, j: int|
            0 <= i < rows && 0 <= j < cols && !(i == 0 && j == 0) ==> !(#[trigger] b[i][j]),
    ensures
        neighbours_of(b, rows, cols, 0, 0) == 0,
{
}

} // verus!
