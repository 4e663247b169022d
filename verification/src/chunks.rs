//! The division of the input among the workers: contiguous chunks of equal
//! size that do not overlap and leave no point out.

use vstd::prelude::*;

verus! {

/// The number of points in a chunk: the points divided evenly among the
/// workers, rounded down, and at least one.
pub open spec fn chunk_size(points: int, workers: int) -> int {
    if points / workers >= 1 {
        points / workers
    } else {
        1
    }
}

/// The chunks are the ranges `k * size .. (k + 1) * size` in ascending
/// order, the last one cut off at `points`, and there are as many as it takes
/// to reach `points`.
pub open spec fn is_plan(chunks: Seq<(usize, usize)>, points: int, size: int) -> bool {
    &&& forall|k: int| 0 <= k < chunks.len() ==> (#[trigger] chunks[k]).0 == k * size
    &&& forall|k: int|
        0 <= k < chunks.len() ==> (#[trigger] chunks[k]).1 == if (k + 1) * size <= points {
            (k + 1) * size
        } else {
            points
        }
    &&& points <= chunks.len() * size
    &&& chunks.len() > 0 ==> (chunks.len() - 1) * size < points
}

/// The chunks are non-empty ranges that follow one another from `0` to
/// `points` without a gap.
pub open spec fn covers(chunks: Seq<(usize, usize)>, points: int) -> bool {
    &&& forall|k: int| 0 <= k < chunks.len() ==> (#[trigger] chunks[k]).0 < chunks[k].1 <= points
    &&& forall|k: int|
        0 <= k < chunks.len() ==> (#[trigger] chunks[k]).0 == if k == 0 {
            0
        } else {
            chunks[k - 1].1 as int
        }
    &&& if chunks.len() == 0 {
        points == 0
    } else {
        chunks[chunks.len() - 1].1 == points
    }
}

/// Splits the ids `0..points` into chunks for `worker_count` workers. Where
/// the points do not divide evenly, one more chunk holds the remainder; where
/// there are fewer points than workers, every point is a chunk.
pub fn plan_chunks(points: usize, worker_count: usize) -> (chunks: Vec<(usize, usize)>)
    requires
        worker_count >= 1,
    ensures
        is_plan(chunks@, points as int, chunk_size(points as int, worker_count as int)),
        covers(chunks@, points as int),
{
    let even = points / worker_count;
    let size = if even >= 1 {
        even
    } else {
        1
    };
    let mut chunks: Vec<(usize, usize)> = Vec::new();
    let mut start: usize = 0;
    assert(chunks.len() * size == 0) by (nonlinear_arith)
        requires
            chunks.len() == 0,
    ;
    while start < points
        invariant
            size >= 1,
            start <= points,
            start < points ==> start == chunks.len() * size,
            start == points ==> points <= chunks.len() * size,
            chunks.len() > 0 ==> (chunks.len() - 1) * size < points,
            forall|k: int| 0 <= k < chunks.len() ==> (#[trigger] chunks[k]).0 == k * size,
            forall|k: int|
                0 <= k < chunks.len() ==> (#[trigger] chunks[k]).1 == if (k + 1) * size
                    <= points {
                    (k + 1) * size
                } else {
                    points as int
                },
        decreases points - start,
    {
        let ghost k = chunks.len() as int;
        assert((k + 1) * size == k * size + size) by (nonlinear_arith);
        let end = if points - start > size {
            start + size
        } else {
            points
        };
        chunks.push((start, end));
        start = end;
    }
    proof {
        lemma_plan_covers(chunks@, points as int, size as int);
    }
    chunks
}

/// The start of chunk `k` of a plan with a chunk `k` lies before the last
/// point, and the chunk after it starts `size` points later.
proof fn lemma_chunk_start(count: int, points: int, size: int, k: int)
    requires
        size >= 1,
        0 <= k < count,
        (count - 1) * size < points,
    ensures
        (k + 1) * size == k * size + size,
        k * size < points,
{
    assert((k + 1) * size == k * size + size) by (nonlinear_arith);
    assert(k * size <= (count - 1) * size) by (nonlinear_arith)
        requires
            0 <= k <= count - 1,
            size >= 1,
    ;
}

/// A plan leaves no point out and bins none twice: its chunks follow one
/// another from the first point to the last.
pub proof fn lemma_plan_covers(chunks: Seq<(usize, usize)>, points: int, size: int)
    requires
        size >= 1,
        points >= 0,
        is_plan(chunks, points, size),
    ensures
        covers(chunks, points),
{
    let count = chunks.len() as int;
    assert forall|k: int| 0 <= k < count implies (#[trigger] chunks[k]).0 < chunks[k].1
        <= points by {
        lemma_chunk_start(count, points, size, k);
    }
    assert forall|k: int| 0 <= k < count implies (#[trigger] chunks[k]).0 == if k == 0 {
        0
    } else {
        chunks[k - 1].1 as int
    } by {
        if k > 0 {
            lemma_chunk_start(count, points, size, k);
        } else {
            assert(0 * size == 0);
        }
    }
    if count > 0 {
        lemma_chunk_start(count, points, size, count - 1);
    }
}

} // verus!
