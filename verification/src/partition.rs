//! The partitioner: divides `height` rows among `threads` workers into
//! contiguous half-open row ranges that tile `[0, height)` exactly, with
//! the last worker absorbing any remainder of the integer division.

use vstd::prelude::*;
use vstd::arithmetic::div_mod::{lemma_div_is_ordered, lemma_div_multiples_vanish};
use vstd::arithmetic::mul::lemma_mul_inequality;

verus! {

/// A half-open row range `[start, end)` assigned to one worker.
#[derive(Clone, Copy, PartialEq, Eq, Structural)]
pub struct Partition {
    pub start: usize,
    pub end: usize,
}

/// First row owned by worker `i` out of `threads`.
pub open spec fn part_start(i: int, height: int, threads: int) -> int {
    i * height / threads
}

/// One past the last row owned by worker `i`: the usual division bound,
/// except that the last worker is forced up to `height`.
pub open spec fn part_end(i: int, height: int, threads: int) -> int {
    if i == threads - 1 {
        height
    } else {
        (i + 1) * height / threads
    }
}

/// Row-range bounds are monotone in the worker index and stay within
/// `[0, height]`.
pub proof fn lemma_part_start_bounds(i: int, height: int, threads: int)
    requires
        threads >= 1,
        height >= 0,
        0 <= i <= threads,
    ensures
        0 <= i * height / threads <= height,
{
    lemma_mul_inequality(0, i, height);
    assert(0 * height == 0) by (nonlinear_arith);
    lemma_mul_inequality(i, threads, height);
    lemma_div_is_ordered(0, i * height, threads);
    lemma_div_is_ordered(i * height, threads * height, threads);
    lemma_div_multiples_vanish(height, threads);
}

/// The partitions tile `[0, height)` exactly: the first starts at row 0,
/// each ends where the next begins, each is well formed and within bounds,
/// and the last ends at `height`.
pub proof fn lemma_partition_cover(height: int, threads: int)
    requires
        threads >= 1,
        height >= 0,
    ensures
        part_start(0, height, threads) == 0,
        part_end(threads - 1, height, threads) == height,
        forall|i: int|
            0 <= i < threads - 1 ==> #[trigger] part_end(i, height, threads) == part_start(
                i + 1,
                height,
                threads,
            ),
        forall|i: int|
            0 <= i < threads ==> #[trigger] part_start(i, height, threads) <= part_end(
                i,
                height,
                threads,
            ),
        forall|i: int|
            0 <= i < threads ==> 0 <= #[trigger] part_start(i, height, threads) && part_end(
                i,
                height,
                threads,
            ) <= height,
{
    assert(0 * height == 0) by (nonlinear_arith);
    assert(part_start(0, height, threads) == 0int / threads);
    assert(0int / threads == 0) by (nonlinear_arith)
        requires
            threads >= 1,
    ;
    assert forall|i: int| 0 <= i < threads implies #[trigger] part_start(i, height, threads)
        <= part_end(i, height, threads) && 0 <= part_start(i, height, threads) && part_end(
        i,
        height,
        threads,
    ) <= height by {
        lemma_part_start_bounds(i, height, threads);
        if i == threads - 1 {
            lemma_part_start_bounds(i + 1, height, threads);
        } else {
            lemma_mul_inequality(i, i + 1, height);
            lemma_div_is_ordered(i * height, (i + 1) * height, threads);
            lemma_part_start_bounds(i + 1, height, threads);
        }
    }
}

/// Builds the `threads` partitions of `height` rows, worker `i` owning
/// rows `[i * height / threads, (i + 1) * height / threads)` and the last
/// worker owning everything up to `height`.
pub fn make_partitions(height: usize, threads: usize) -> (parts: Vec<Partition>)
    requires
        threads >= 1,
    ensures
        parts@.len() == threads,
        forall|i: int|
            0 <= i < threads ==> (#[trigger] parts@[i]).start == part_start(
                i,
                height as int,
                threads as int,
            ) && parts@[i].end == part_end(i, height as int, threads as int),
        parts@[0].start == 0,
        parts@[threads - 1].end == height,
        forall|i: int| 0 <= i < threads - 1 ==> (#[trigger] parts@[i]).end == parts@[i + 1].start,
        forall|i: int| 0 <= i < threads ==> (#[trigger] parts@[i]).start <= parts@[i].end <= height,
{
    proof {
        lemma_partition_cover(height as int, threads as int);
    }
    let mut parts: Vec<Partition> = Vec::new();
    for i in 0..threads
        invariant
            threads >= 1,
            parts@.len() == i,
            forall|k: int|
                0 <= k < i ==> (#[trigger] parts@[k]).start == part_start(
                    k,
                    height as int,
                    threads as int,
                ) && parts@[k].end == part_end(k, height as int, threads as int),
    {
        proof {
            lemma_part_start_bounds(i as int, height as int, threads as int);
            lemma_part_start_bounds(i as int + 1, height as int, threads as int);
            assert((i as int + 1) * (height as int) <= 0xffff_ffff_ffff_ffff
                * 0xffff_ffff_ffff_ffff && (i as int) * (height as int) <= 0xffff_ffff_ffff_ffff
                * 0xffff_ffff_ffff_ffff) by (nonlinear_arith)
                requires
                    0 <= i as int + 1 <= 0xffff_ffff_ffff_ffff,
                    0 <= height as int <= 0xffff_ffff_ffff_ffff,
            ;
        }
        let start: usize = ((i as u128 * height as u128) / threads as u128) as usize;
        let mut end: usize = (((i as u128 + 1) * height as u128) / threads as u128) as usize;
        assert(start == part_start(i as int, height as int, threads as int));
        if i == threads - 1 {
            end = height;
        }
        assert(end == part_end(i as int, height as int, threads as int));
        parts.push(Partition { start, end });
    }
    proof {
        lemma_partition_cover(height as int, threads as int);
    }
    parts
}

} // verus!
