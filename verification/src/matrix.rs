//! Dense integer matrix arithmetic: elementwise sum and subtraction and
//! the matrix product, each as a single-threaded reference pass and as a
//! partitioned run whose joined output is proved equal to the reference.

use vstd::prelude::*;
use crate::grid::grid_view;
use crate::partition::make_partitions;

verus! {

/// Number of rows of a matrix view.
pub open spec fn rows_of(g: Seq<Seq<i32>>) -> int {
    g.len() as int
}

/// Number of columns of a matrix view: the length of its first row
/// (every row, once the matrix is rectangular).
pub open spec fn cols_of(g: Seq<Seq<i32>>) -> int {
    if g.len() == 0 {
        0int
    } else {
        g[0].len() as int
    }
}

/// The matrix is rectangular: every row has the length of the first.
pub open spec fn is_rect(g: Seq<Seq<i32>>) -> bool {
    forall|i: int| 0 <= i < g.len() ==> (#[trigger] g[i]).len() == cols_of(g)
}

/// Two matrices have identical dimensions.
pub open spec fn same_shape(a: Seq<Seq<i32>>, b: Seq<Seq<i32>>) -> bool {
    rows_of(a) == rows_of(b) && cols_of(a) == cols_of(b)
}

/// Every elementwise sum stays within `i32`.
pub open spec fn sum_fits(a: Seq<Seq<i32>>, b: Seq<Seq<i32>>) -> bool {
    forall|i: int, j: int|
        0 <= i < rows_of(a) && 0 <= j < cols_of(a) ==> i32::MIN <= #[trigger] (a[i][j] + b[i][j])
            <= i32::MAX
}

/// Every elementwise difference stays within `i32`.
pub open spec fn sub_fits(a: Seq<Seq<i32>>, b: Seq<Seq<i32>>) -> bool {
    forall|i: int, j: int|
        0 <= i < rows_of(a) && 0 <= j < cols_of(a) ==> i32::MIN <= #[trigger] (a[i][j] - b[i][j])
            <= i32::MAX
}

/// The first `p` terms of the dot product behind entry `(i, j)` of the
/// matrix product: the sum over `k < p` of `a[i][k] * b[k][j]`.
pub open spec fn dot_prefix(a: Seq<Seq<i32>>, b: Seq<Seq<i32>>, i: int, j: int, p: int) -> int
    decreases p,
{
    if p <= 0 {
        0int
    } else {
        dot_prefix(a, b, i, j, p - 1) + a[i][p - 1] * b[p - 1][j]
    }
}

/// Entry `(i, j)` of the matrix product: the full dot product of row
/// `i` of `a` with column `j` of `b`.
pub open spec fn prod_entry(a: Seq<Seq<i32>>, b: Seq<Seq<i32>>, i: int, j: int) -> int {
    dot_prefix(a, b, i, j, rows_of(b))
}

/// Every partial sum of every dot product, and every single product of
/// two entries, stays within `i32` - so the running `i32` accumulator
/// of the product pass never overflows.
pub open spec fn prod_fits(a: Seq<Seq<i32>>, b: Seq<Seq<i32>>) -> bool {
    (forall|i: int, j: int, p: int|
        0 <= i < rows_of(a) && 0 <= j < cols_of(b) && 0 <= p <= rows_of(b) ==> i32::MIN
            <= #[trigger] dot_prefix(a, b, i, j, p) <= i32::MAX) && (forall|i: int, j: int, k: int|
        0 <= i < rows_of(a) && 0 <= j < cols_of(b) && 0 <= k < rows_of(b) ==> i32::MIN
            <= #[trigger] (a[i][k] * b[k][j]) <= i32::MAX)
}

/// Row `r` of the elementwise sum.
pub open spec fn sum_row(a: Seq<Seq<i32>>, b: Seq<Seq<i32>>, r: int) -> Seq<i32> {
    Seq::new(cols_of(a) as nat, |j: int| (a[r][j] + b[r][j]) as i32)
}

/// Row `r` of the elementwise difference.
pub open spec fn sub_row(a: Seq<Seq<i32>>, b: Seq<Seq<i32>>, r: int) -> Seq<i32> {
    Seq::new(cols_of(a) as nat, |j: int| (a[r][j] - b[r][j]) as i32)
}

/// Row `r` of the matrix product.
pub open spec fn prod_row(a: Seq<Seq<i32>>, b: Seq<Seq<i32>>, r: int) -> Seq<i32> {
    Seq::new(cols_of(b) as nat, |j: int| prod_entry(a, b, r, j) as i32)
}

/// Elementwise sum of two same-shaped matrices, single-threaded
/// reference pass.
pub fn sum_matrix_sequential(m1: &Vec<Vec<i32>>, m2: &Vec<Vec<i32>>) -> (result: Vec<Vec<i32>>)
    requires
        is_rect(grid_view(m1@)),
        is_rect(grid_view(m2@)),
        same_shape(grid_view(m1@), grid_view(m2@)),
        sum_fits(grid_view(m1@), grid_view(m2@)),
    ensures
        result@.len() == m1@.len(),
        forall|i: int|
            0 <= i < m1@.len() ==> (#[trigger] result@[i])@.len() == cols_of(grid_view(m1@)),
        forall|i: int, j: int|
            0 <= i < m1@.len() && 0 <= j < cols_of(grid_view(m1@)) ==> #[trigger] grid_view(
                result@,
            )[i][j] == grid_view(m1@)[i][j] + grid_view(m2@)[i][j],
{
    sum_rows_partition(m1, m2, 0, m1.len())
}

/// The worker task behind the elementwise sum: computes output rows
/// `[start, end)` only, reading only those rows of its operands.
pub fn sum_rows_partition(m1: &Vec<Vec<i32>>, m2: &Vec<Vec<i32>>, start: usize, end: usize) -> (result: Vec<Vec<i32>>)
    requires
        is_rect(grid_view(m1@)),
        is_rect(grid_view(m2@)),
        same_shape(grid_view(m1@), grid_view(m2@)),
        sum_fits(grid_view(m1@), grid_view(m2@)),
        start <= end <= m1@.len(),
    ensures
        result@.len() == end - start,
        forall|k: int|
            0 <= k < end - start ==> (#[trigger] result@[k])@ == sum_row(
                grid_view(m1@),
                grid_view(m2@),
                start + k,
            ),
        forall|k: int|
            0 <= k < end - start ==> (#[trigger] result@[k])@.len() == cols_of(grid_view(m1@)),
        forall|k: int, j: int|
            0 <= k < end - start && 0 <= j < cols_of(grid_view(m1@)) ==> #[trigger] grid_view(
                result@,
            )[k][j] == grid_view(m1@)[start + k][j] + grid_view(m2@)[start + k][j],
{
    let ghost a = grid_view(m1@);
    let ghost b = grid_view(m2@);
    let ghost cols = cols_of(a);
    let mut result: Vec<Vec<i32>> = Vec::new();
    let mut i = start;
    while i < end
        invariant
            a == grid_view(m1@),
            b == grid_view(m2@),
            is_rect(a),
            is_rect(b),
            same_shape(a, b),
            sum_fits(a, b),
            start <= i <= end <= m1@.len(),
            cols == cols_of(a),
            result@.len() == i - start,
            forall|k: int| 0 <= k < i - start ==> (#[trigger] result@[k])@ == sum_row(a, b, start + k),
        decreases end - i,
    {
        let mut row: Vec<i32> = Vec::new();
        let width = m1[i].len();
        proof {
            assert(m1@[i as int]@ == a[i as int]);
            assert(m2@[i as int]@ == b[i as int]);
        }
        let mut j: usize = 0;
        while j < width
            invariant
                a == grid_view(m1@),
                b == grid_view(m2@),
                is_rect(a),
                is_rect(b),
                same_shape(a, b),
                sum_fits(a, b),
                start <= i < end <= m1@.len(),
                width == cols_of(a),
                j <= width,
                row@.len() == j,
                forall|c: int| 0 <= c < j ==> #[trigger] row@[c] == a[i as int][c] + b[i as int][c],
            decreases width - j,
        {
            proof {
                assert(m1@[i as int]@ == a[i as int]);
                assert(m2@[i as int]@ == b[i as int]);
            }
            row.push(m1[i][j] + m2[i][j]);
            j = j + 1;
        }
        proof {
            assert(row@ =~= sum_row(a, b, i as int));
        }
        result.push(row);
        i = i + 1;
    }
    proof {
        assert forall|k: int, j: int| 0 <= k < end - start && 0 <= j < cols_of(a) implies
            #[trigger] grid_view(result@)[k][j] == a[start + k][j] + b[start + k][j] by {
            assert(result@[k]@ == sum_row(a, b, start + k));
        }
        assert forall|k: int| 0 <= k < end - start implies
            (#[trigger] result@[k])@.len() == cols_of(a) by {
            assert(result@[k]@ == sum_row(a, b, start + k));
        }
    }
    result
}

/// Elementwise difference of two same-shaped matrices, single-threaded
/// reference pass.
pub fn sub_matrix_sequential(m1: &Vec<Vec<i32>>, m2: &Vec<Vec<i32>>) -> (result: Vec<Vec<i32>>)
    requires
        is_rect(grid_view(m1@)),
        is_rect(grid_view(m2@)),
        same_shape(grid_view(m1@), grid_view(m2@)),
        sub_fits(grid_view(m1@), grid_view(m2@)),
    ensures
        result@.len() == m1@.len(),
        forall|i: int|
            0 <= i < m1@.len() ==> (#[trigger] result@[i])@.len() == cols_of(grid_view(m1@)),
        forall|i: int, j: int|
            0 <= i < m1@.len() && 0 <= j < cols_of(grid_view(m1@)) ==> #[trigger] grid_view(
                result@,
            )[i][j] == grid_view(m1@)[i][j] - grid_view(m2@)[i][j],
{
    sub_rows_partition(m1, m2, 0, m1.len())
}

/// The worker task behind the elementwise difference: computes output
/// rows `[start, end)` only.
pub fn sub_rows_partition(m1: &Vec<Vec<i32>>, m2: &Vec<Vec<i32>>, start: usize, end: usize) -> (result: Vec<Vec<i32>>)
    requires
        is_rect(grid_view(m1@)),
        is_rect(grid_view(m2@)),
        same_shape(grid_view(m1@), grid_view(m2@)),
        sub_fits(grid_view(m1@), grid_view(m2@)),
        start <= end <= m1@.len(),
    ensures
        result@.len() == end - start,
        forall|k: int|
            0 <= k < end - start ==> (#[trigger] result@[k])@ == sub_row(
                grid_view(m1@),
                grid_view(m2@),
                start + k,
            ),
        forall|k: int|
            0 <= k < end - start ==> (#[trigger] result@[k])@.len() == cols_of(grid_view(m1@)),
        forall|k: int, j: int|
            0 <= k < end - start && 0 <= j < cols_of(grid_view(m1@)) ==> #[trigger] grid_view(
                result@,
            )[k][j] == grid_view(m1@)[start + k][j] - grid_view(m2@)[start + k][j],
{
    let ghost a = grid_view(m1@);
    let ghost b = grid_view(m2@);
    let ghost cols = cols_of(a);
    let mut result: Vec<Vec<i32>> = Vec::new();
    let mut i = start;
    while i < end
        invariant
            a == grid_view(m1@),
            b == grid_view(m2@),
            is_rect(a),
            is_rect(b),
            same_shape(a, b),
            sub_fits(a, b),
            start <= i <= end <= m1@.len(),
            cols == cols_of(a),
            result@.len() == i - start,
            forall|k: int| 0 <= k < i - start ==> (#[trigger] result@[k])@ == sub_row(a, b, start + k),
        decreases end - i,
    {
        let mut row: Vec<i32> = Vec::new();
        let width = m1[i].len();
        proof {
            assert(m1@[i as int]@ == a[i as int]);
            assert(m2@[i as int]@ == b[i as int]);
        }
        let mut j: usize = 0;
        while j < width
            invariant
                a == grid_view(m1@),
                b == grid_view(m2@),
                is_rect(a),
                is_rect(b),
                same_shape(a, b),
                sub_fits(a, b),
                start <= i < end <= m1@.len(),
                width == cols_of(a),
                j <= width,
                row@.len() == j,
                forall|c: int| 0 <= c < j ==> #[trigger] row@[c] == a[i as int][c] - b[i as int][c],
            decreases width - j,
        {
            proof {
                assert(m1@[i as int]@ == a[i as int]);
                assert(m2@[i as int]@ == b[i as int]);
            }
            row.push(m1[i][j] - m2[i][j]);
            j = j + 1;
        }
        proof {
            assert(row@ =~= sub_row(a, b, i as int));
        }
        result.push(row);
        i = i + 1;
    }
    proof {
        assert forall|k: int, j: int| 0 <= k < end - start && 0 <= j < cols_of(a) implies
            #[trigger] grid_view(result@)[k][j] == a[start + k][j] - b[start + k][j] by {
            assert(result@[k]@ == sub_row(a, b, start + k));
        }
        assert forall|k: int| 0 <= k < end - start implies
            (#[trigger] result@[k])@.len() == cols_of(a) by {
            assert(result@[k]@ == sub_row(a, b, start + k));
        }
    }
    result
}

/// Matrix product of compatible matrices, single-threaded reference
/// pass: entry `(i, j)` is the dot product of row `i` of `m1` with
/// column `j` of `m2`.
pub fn mul_matrix_sequential(m1: &Vec<Vec<i32>>, m2: &Vec<Vec<i32>>) -> (result: Vec<Vec<i32>>)
    requires
        is_rect(grid_view(m1@)),
        is_rect(grid_view(m2@)),
        cols_of(grid_view(m1@)) == rows_of(grid_view(m2@)),
        rows_of(grid_view(m2@)) >= 1,
        prod_fits(grid_view(m1@), grid_view(m2@)),
    ensures
        result@.len() == m1@.len(),
        forall|i: int|
            0 <= i < m1@.len() ==> (#[trigger] result@[i])@.len() == cols_of(grid_view(m2@)),
        forall|i: int, j: int|
            0 <= i < m1@.len() && 0 <= j < cols_of(grid_view(m2@)) ==> #[trigger] grid_view(
                result@,
            )[i][j] == prod_entry(grid_view(m1@), grid_view(m2@), i, j),
{
    mul_rows_partition(m1, m2, 0, m1.len())
}

/// The worker task behind the matrix product: computes full output rows
/// `[start, end)` across all output columns, reading only its own row
/// slice of `m1` and the whole of `m2`.
pub fn mul_rows_partition(m1: &Vec<Vec<i32>>, m2: &Vec<Vec<i32>>, start: usize, end: usize) -> (result: Vec<Vec<i32>>)
    requires
        is_rect(grid_view(m1@)),
        is_rect(grid_view(m2@)),
        cols_of(grid_view(m1@)) == rows_of(grid_view(m2@)),
        rows_of(grid_view(m2@)) >= 1,
        prod_fits(grid_view(m1@), grid_view(m2@)),
        start <= end <= m1@.len(),
    ensures
        result@.len() == end - start,
        forall|k: int|
            0 <= k < end - start ==> (#[trigger] result@[k])@ == prod_row(
                grid_view(m1@),
                grid_view(m2@),
                start + k,
            ),
        forall|k: int|
            0 <= k < end - start ==> (#[trigger] result@[k])@.len() == cols_of(grid_view(m2@)),
        forall|k: int, j: int|
            0 <= k < end - start && 0 <= j < cols_of(grid_view(m2@)) ==> #[trigger] grid_view(
                result@,
            )[k][j] == prod_entry(grid_view(m1@), grid_view(m2@), start + k, j),
{
    let ghost a = grid_view(m1@);
    let ghost b = grid_view(m2@);
    let inner = m2.len();
    let cols_out = m2[0].len();
    let mut result: Vec<Vec<i32>> = Vec::new();
    let mut i = start;
    while i < end
        invariant
            a == grid_view(m1@),
            b == grid_view(m2@),
            is_rect(a),
            is_rect(b),
            cols_of(a) == rows_of(b),
            rows_of(b) >= 1,
            prod_fits(a, b),
            start <= i <= end <= m1@.len(),
            inner == rows_of(b),
            cols_out == cols_of(b),
            result@.len() == i - start,
            forall|k: int| 0 <= k < i - start ==> (#[trigger] result@[k])@ == prod_row(a, b, start + k),
        decreases end - i,
    {
        let mut row: Vec<i32> = Vec::new();
        let mut j: usize = 0;
        while j < cols_out
            invariant
                a == grid_view(m1@),
                b == grid_view(m2@),
                is_rect(a),
                is_rect(b),
                cols_of(a) == rows_of(b),
                rows_of(b) >= 1,
                prod_fits(a, b),
                start <= i < end <= m1@.len(),
                inner == rows_of(b),
                cols_out == cols_of(b),
                j <= cols_out,
                row@.len() == j,
                forall|c: int| 0 <= c < j ==> #[trigger] row@[c] == prod_entry(a, b, i as int, c),
            decreases cols_out - j,
        {
            let mut sum: i32 = 0;
            let mut k: usize = 0;
            while k < inner
                invariant
                    a == grid_view(m1@),
                    b == grid_view(m2@),
                    is_rect(a),
                    is_rect(b),
                    cols_of(a) == rows_of(b),
                    prod_fits(a, b),
                    start <= i < end <= m1@.len(),
                    inner == rows_of(b),
                    cols_out == cols_of(b),
                    j < cols_out,
                    k <= inner,
                    sum == dot_prefix(a, b, i as int, j as int, k as int),
                decreases inner - k,
            {
                proof {
                    assert(m1@[i as int]@ == a[i as int]);
                    assert(m2@[k as int]@ == b[k as int]);
                }
                let term = m1[i][k] * m2[k][j];
                proof {
                    assert(dot_prefix(a, b, i as int, j as int, k + 1int) == dot_prefix(
                        a,
                        b,
                        i as int,
                        j as int,
                        k as int,
                    ) + a[i as int][k as int] * b[k as int][j as int]);
                }
                sum = sum + term;
                k = k + 1;
            }
            row.push(sum);
            j = j + 1;
        }
        proof {
            assert(row@ =~= prod_row(a, b, i as int));
        }
        result.push(row);
        i = i + 1;
    }
    proof {
        assert forall|k: int, j: int| 0 <= k < end - start && 0 <= j < cols_of(b) implies
            #[trigger] grid_view(result@)[k][j] == prod_entry(a, b, start + k, j) by {
            assert(result@[k]@ == prod_row(a, b, start + k));
        }
        assert forall|k: int| 0 <= k < end - start implies
            (#[trigger] result@[k])@.len() == cols_of(b) by {
            assert(result@[k]@ == prod_row(a, b, start + k));
        }
    }
    result
}

/// The partitioned elementwise sum: splits the output rows among
/// `threads` workers, runs each worker's pure task on its own row
/// range, and joins the partial results in partition order. Returns
/// exactly the matrix that the single-threaded reference pass returns.
pub fn sum_matrix_partitioned(m1: &Vec<Vec<i32>>, m2: &Vec<Vec<i32>>, threads: usize) -> (result:
    Vec<Vec<i32>>)
    requires
        is_rect(grid_view(m1@)),
        is_rect(grid_view(m2@)),
        same_shape(grid_view(m1@), grid_view(m2@)),
        sum_fits(grid_view(m1@), grid_view(m2@)),
        threads >= 1,
    ensures
        result@.len() == m1@.len(),
        forall|i: int|
            0 <= i < m1@.len() ==> (#[trigger] result@[i])@.len() == cols_of(grid_view(m1@)),
        forall|i: int, j: int|
            0 <= i < m1@.len() && 0 <= j < cols_of(grid_view(m1@)) ==> #[trigger] grid_view(
                result@,
            )[i][j] == grid_view(m1@)[i][j] + grid_view(m2@)[i][j],
{
    let ghost a = grid_view(m1@);
    let ghost b = grid_view(m2@);
    let rows = m1.len();
    let parts = make_partitions(rows, threads);
    let mut result: Vec<Vec<i32>> = Vec::new();
    for i in 0..threads
        invariant
            a == grid_view(m1@),
            b == grid_view(m2@),
            is_rect(a),
            is_rect(b),
            same_shape(a, b),
            sum_fits(a, b),
            threads >= 1,
            rows == m1@.len(),
            parts@.len() == threads,
            forall|k: int| 0 <= k < threads - 1 ==> (#[trigger] parts@[k]).end == parts@[k + 1].start,
            forall|k: int| 0 <= k < threads ==> (#[trigger] parts@[k]).start <= parts@[k].end <= rows,
            parts@[0].start == 0,
            parts@[threads - 1].end == rows,
            result@.len() == if i == 0 {
                0int
            } else {
                parts@[i - 1].end as int
            },
            forall|r: int|
                0 <= r < result@.len() ==> (#[trigger] result@[r])@ == sum_row(a, b, r),
    {
        let p = parts[i];
        let mut chunk = sum_rows_partition(m1, m2, p.start, p.end);
        result.append(&mut chunk);
    }
    proof {
        assert forall|k: int, j: int| 0 <= k < m1@.len() && 0 <= j < cols_of(a) implies
            #[trigger] grid_view(result@)[k][j] == a[k][j] + b[k][j] by {
            assert(result@[k]@ == sum_row(a, b, k));
        }
        assert forall|k: int| 0 <= k < m1@.len() implies
            (#[trigger] result@[k])@.len() == cols_of(a) by {
            assert(result@[k]@ == sum_row(a, b, k));
        }
    }
    result
}

/// The partitioned elementwise difference: the same fan-out/fan-in
/// skeleton as the sum, proved equal to the reference pass.
pub fn sub_matrix_partitioned(m1: &Vec<Vec<i32>>, m2: &Vec<Vec<i32>>, threads: usize) -> (result:
    Vec<Vec<i32>>)
    requires
        is_rect(grid_view(m1@)),
        is_rect(grid_view(m2@)),
        same_shape(grid_view(m1@), grid_view(m2@)),
        sub_fits(grid_view(m1@), grid_view(m2@)),
        threads >= 1,
    ensures
        result@.len() == m1@.len(),
        forall|i: int|
            0 <= i < m1@.len() ==> (#[trigger] result@[i])@.len() == cols_of(grid_view(m1@)),
        forall|i: int, j: int|
            0 <= i < m1@.len() && 0 <= j < cols_of(grid_view(m1@)) ==> #[trigger] grid_view(
                result@,
            )[i][j] == grid_view(m1@)[i][j] - grid_view(m2@)[i][j],
{
    let ghost a = grid_view(m1@);
    let ghost b = grid_view(m2@);
    let rows = m1.len();
    let parts = make_partitions(rows, threads);
    let mut result: Vec<Vec<i32>> = Vec::new();
    for i in 0..threads
        invariant
            a == grid_view(m1@),
            b == grid_view(m2@),
            is_rect(a),
            is_rect(b),
            same_shape(a, b),
            sub_fits(a, b),
            threads >= 1,
            rows == m1@.len(),
            parts@.len() == threads,
            forall|k: int| 0 <= k < threads - 1 ==> (#[trigger] parts@[k]).end == parts@[k + 1].start,
            forall|k: int| 0 <= k < threads ==> (#[trigger] parts@[k]).start <= parts@[k].end <= rows,
            parts@[0].start == 0,
            parts@[threads - 1].end == rows,
            result@.len() == if i == 0 {
                0int
            } else {
                parts@[i - 1].end as int
            },
            forall|r: int|
                0 <= r < result@.len() ==> (#[trigger] result@[r])@ == sub_row(a, b, r),
    {
        let p = parts[i];
        let mut chunk = sub_rows_partition(m1, m2, p.start, p.end);
        result.append(&mut chunk);
    }
    proof {
        assert forall|k: int, j: int| 0 <= k < m1@.len() && 0 <= j < cols_of(a) implies
            #[trigger] grid_view(result@)[k][j] == a[k][j] - b[k][j] by {
            assert(result@[k]@ == sub_row(a, b, k));
        }
        assert forall|k: int| 0 <= k < m1@.len() implies
            (#[trigger] result@[k])@.len() == cols_of(a) by {
            assert(result@[k]@ == sub_row(a, b, k));
        }
    }
    result
}

/// The partitioned matrix product: each worker computes full output
/// rows for its partition, reading the whole second operand; the joined
/// output is proved equal to the reference pass.
pub fn mul_matrix_partitioned(m1: &Vec<Vec<i32>>, m2: &Vec<Vec<i32>>, threads: usize) -> (result:
    Vec<Vec<i32>>)
    requires
        is_rect(grid_view(m1@)),
        is_rect(grid_view(m2@)),
        cols_of(grid_view(m1@)) == rows_of(grid_view(m2@)),
        rows_of(grid_view(m2@)) >= 1,
        prod_fits(grid_view(m1@), grid_view(m2@)),
        threads >= 1,
    ensures
        result@.len() == m1@.len(),
        forall|i: int|
            0 <= i < m1@.len() ==> (#[trigger] result@[i])@.len() == cols_of(grid_view(m2@)),
        forall|i: int, j: int|
            0 <= i < m1@.len() && 0 <= j < cols_of(grid_view(m2@)) ==> #[trigger] grid_view(
                result@,
            )[i][j] == prod_entry(grid_view(m1@), grid_view(m2@), i, j),
{
    let ghost a = grid_view(m1@);
    let ghost b = grid_view(m2@);
    let rows = m1.len();
    let parts = make_partitions(rows, threads);
    let mut result: Vec<Vec<i32>> = Vec::new();
    for i in 0..threads
        invariant
            a == grid_view(m1@),
            b == grid_view(m2@),
            is_rect(a),
            is_rect(b),
            cols_of(a) == rows_of(b),
            rows_of(b) >= 1,
            prod_fits(a, b),
            threads >= 1,
            rows == m1@.len(),
            parts@.len() == threads,
            forall|k: int| 0 <= k < threads - 1 ==> (#[trigger] parts@[k]).end == parts@[k + 1].start,
            forall|k: int| 0 <= k < threads ==> (#[trigger] parts@[k]).start <= parts@[k].end <= rows,
            parts@[0].start == 0,
            parts@[threads - 1].end == rows,
            result@.len() == if i == 0 {
                0int
            } else {
                parts@[i - 1].end as int
            },
            forall|r: int|
                0 <= r < result@.len() ==> (#[trigger] result@[r])@ == prod_row(a, b, r),
    {
        let p = parts[i];
        let mut chunk = mul_rows_partition(m1, m2, p.start, p.end);
        result.append(&mut chunk);
    }
    proof {
        assert forall|k: int, j: int| 0 <= k < m1@.len() && 0 <= j < cols_of(b) implies
            #[trigger] grid_view(result@)[k][j] == prod_entry(a, b, k, j) by {
            assert(result@[k]@ == prod_row(a, b, k));
        }
        assert forall|k: int| 0 <= k < m1@.len() implies
            (#[trigger] result@[k])@.len() == cols_of(b) by {
            assert(result@[k]@ == prod_row(a, b, k));
        }
    }
    result
}

/// A `rows x cols` matrix of zeroes.
pub open spec fn is_zero_matrix(z: Seq<Seq<i32>>, rows: int, cols: int) -> bool {
    z.len() == rows && (forall|i: int| 0 <= i < rows ==> (#[trigger] z[i]).len() == cols) && (
    forall|i: int, j: int| 0 <= i < rows && 0 <= j < cols ==> #[trigger] z[i][j] == 0)
}

/// The `n x n` matrix with ones on the diagonal and zeroes elsewhere.
pub open spec fn is_identity_matrix(m: Seq<Seq<i32>>, n: int) -> bool {
    m.len() == n && (forall|i: int| 0 <= i < n ==> (#[trigger] m[i]).len() == n) && (forall|
        i: int,
        j: int,
    |
        0 <= i < n && 0 <= j < n ==> #[trigger] m[i][j] == if i == j {
            1i32
        } else {
            0i32
        })
}

/// Builds the `rows x cols` zero matrix.
pub fn zero_matrix(rows: usize, cols: usize) -> (z: Vec<Vec<i32>>)
    ensures
        is_zero_matrix(grid_view(z@), rows as int, cols as int),
        is_rect(grid_view(z@)),
{
    let mut z: Vec<Vec<i32>> = Vec::new();
    for i in 0..rows
        invariant
            z@.len() == i,
            forall|r: int| 0 <= r < i ==> (#[trigger] z@[r])@.len() == cols,
            forall|r: int, c: int| 0 <= r < i && 0 <= c < cols ==> #[trigger] z@[r]@[c] == 0,
    {
        let mut row: Vec<i32> = Vec::new();
        for j in 0..cols
            invariant
                row@.len() == j,
                forall|c: int| 0 <= c < j ==> #[trigger] row@[c] == 0,
        {
            row.push(0);
        }
        z.push(row);
    }
    z
}

/// Builds the `n x n` identity matrix.
pub fn identity_matrix(n: usize) -> (m: Vec<Vec<i32>>)
    ensures
        is_identity_matrix(grid_view(m@), n as int),
        is_rect(grid_view(m@)),
{
    let mut m: Vec<Vec<i32>> = Vec::new();
    for i in 0..n
        invariant
            m@.len() == i,
            forall|r: int| 0 <= r < i ==> (#[trigger] m@[r])@.len() == n,
            forall|r: int, c: int|
                0 <= r < i && 0 <= c < n ==> #[trigger] m@[r]@[c] == if r == c {
                    1i32
                } else {
                    0i32
                },
    {
        let mut row: Vec<i32> = Vec::new();
        for j in 0..n
            invariant
                i < n,
                row@.len() == j,
                forall|c: int|
                    0 <= c < j ==> #[trigger] row@[c] == if i == c {
                        1i32
                    } else {
                        0i32
                    },
        {
            if i == j {
                row.push(1);
            } else {
                row.push(0);
            }
        }
        m.push(row);
    }
    m
}

/// Law: adding the zero matrix returns the first operand unchanged,
/// row for row, and the addition can never overflow.
pub proof fn lemma_sum_zero_identity(a: Seq<Seq<i32>>, z: Seq<Seq<i32>>)
    requires
        is_rect(a),
        is_zero_matrix(z, rows_of(a), cols_of(a)),
    ensures
        sum_fits(a, z),
        forall|r: int| 0 <= r < rows_of(a) ==> #[trigger] sum_row(a, z, r) == a[r],
{
    assert forall|r: int| 0 <= r < rows_of(a) implies #[trigger] sum_row(a, z, r) == a[r] by {
        assert(sum_row(a, z, r) =~= a[r]);
    }
}

/// The dot product of row `r` of the identity matrix with column `j`
/// of `b`, cut off after `p` terms: zero until the diagonal term has
/// been passed, then `b[r][j]`.
proof fn lemma_dot_prefix_identity(idm: Seq<Seq<i32>>, b: Seq<Seq<i32>>, r: int, j: int, p: int)
    requires
        is_rect(b),
        is_identity_matrix(idm, rows_of(b)),
        0 <= r < rows_of(b),
        0 <= j < cols_of(b),
        0 <= p <= rows_of(b),
    ensures
        dot_prefix(idm, b, r, j, p) == if p > r {
            b[r][j] as int
        } else {
            0int
        },
    decreases p,
{
    if p > 0 {
        lemma_dot_prefix_identity(idm, b, r, j, p - 1);
        let x = idm[r][p - 1] as int;
        let y = b[p - 1][j] as int;
        if p - 1 == r {
            assert(x == 1);
            assert(x * y == y) by (nonlinear_arith)
                requires
                    x == 1,
            ;
        } else {
            assert(x == 0);
            assert(x * y == 0) by (nonlinear_arith)
                requires
                    x == 0,
            ;
        }
    }
}

/// Law: multiplying by the identity matrix on the left returns the
/// operand unchanged, row for row, and no partial sum can overflow.
pub proof fn lemma_mul_identity(idm: Seq<Seq<i32>>, b: Seq<Seq<i32>>)
    requires
        is_rect(b),
        rows_of(b) >= 1,
        is_identity_matrix(idm, rows_of(b)),
    ensures
        prod_fits(idm, b),
        forall|r: int| 0 <= r < rows_of(b) ==> #[trigger] prod_row(idm, b, r) == b[r],
{
    let n = rows_of(b);
    assert(cols_of(idm) == n);
    assert forall|i: int, j: int, p: int|
        0 <= i < rows_of(idm) && 0 <= j < cols_of(b) && 0 <= p <= rows_of(b) implies i32::MIN
        <= #[trigger] dot_prefix(idm, b, i, j, p) <= i32::MAX by {
        lemma_dot_prefix_identity(idm, b, i, j, p);
    }
    assert forall|i: int, j: int, k: int|
        0 <= i < rows_of(idm) && 0 <= j < cols_of(b) && 0 <= k < rows_of(b) implies i32::MIN
        <= #[trigger] (idm[i][k] * b[k][j]) <= i32::MAX by {
        let x = idm[i][k] as int;
        let y = b[k][j] as int;
        if i == k {
            assert(x * y == y) by (nonlinear_arith)
                requires
                    x == 1,
            ;
        } else {
            assert(x * y == 0) by (nonlinear_arith)
                requires
                    x == 0,
            ;
        }
    }
    assert forall|r: int| 0 <= r < n implies #[trigger] prod_row(idm, b, r) == b[r] by {
        assert forall|j: int| 0 <= j < cols_of(b) implies prod_row(idm, b, r)[j] == b[r][j] by {
            lemma_dot_prefix_identity(idm, b, r, j, n);
        }
        assert(prod_row(idm, b, r) =~= b[r]);
    }
}

} // verus!
