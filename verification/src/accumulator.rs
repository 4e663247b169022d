//! The local accumulator: one worker bins one chunk of the input into a
//! partial partition of its own, touching nothing that another worker sees.

use vstd::prelude::*;
use crate::cells::total_points;
use crate::config::{BinError, PointPolicy};
use crate::dense::DenseStore;
use crate::geometry::Grid;
use crate::partition::{
    dense_slots, first_malformed, lemma_dense_slots_step, lemma_sparse_bins_step, malformed_count,
    outside_count, sparse_bins, Site,
};
use crate::sparse::SparseStore;

verus! {

/// The local error of a chunk: where points without a cell end the run, the
/// first such point of the chunk.
pub open spec fn local_error(sites: Seq<Site>, policy: PointPolicy, lo: int, hi: int) -> Option<
    BinError,
> {
    if policy == PointPolicy::RejectRun && first_malformed(sites, lo, hi) is Some {
        Some(BinError::MalformedPoint { point: first_malformed(sites, lo, hi)->0 as usize })
    } else {
        None
    }
}

/// Bins the points `lo..hi` into a sparse partial partition. What becomes of
/// a point without a cell is for `malformed_policy` to say: it ends the work
/// on the chunk with a local error that names the point, or it is passed
/// over, and the length of the chunk less the total of the partition is the
/// number of such points.
pub fn accumulate_sparse(
    sites: &Vec<Site>,
    lo: usize,
    hi: usize,
    malformed_policy: PointPolicy,
) -> (outcome: Result<SparseStore, BinError>)
    requires
        lo <= hi <= sites.len(),
    ensures
        match outcome {
            Ok(partial) => {
                &&& local_error(sites@, malformed_policy, lo as int, hi as int) is None
                &&& partial.wf()
                &&& partial@ == sparse_bins(sites@, lo as int, hi as int)
                &&& total_points(partial@) + malformed_count(sites@, lo as int, hi as int) == hi
                    - lo
            },
            Err(error) => local_error(sites@, malformed_policy, lo as int, hi as int) == Some(
                error,
            ),
        },
{
    let mut partial = SparseStore::new();
    let mut at: usize = lo;
    while at < hi
        invariant
            lo <= at <= hi <= sites.len(),
            partial.wf(),
            partial@ == sparse_bins(sites@, lo as int, at as int),
            total_points(partial@) + malformed_count(sites@, lo as int, at as int) == at - lo,
            local_error(sites@, malformed_policy, lo as int, at as int) is None,
        decreases hi - at,
    {
        proof {
            lemma_sparse_bins_step(sites@, lo as int, at as int);
        }
        match sites[at] {
            Some(key) => {
                partial.insert(key, at);
            },
            None => {
                match malformed_policy {
                    PointPolicy::RejectRun => {
                        proof {
                            lemma_first_malformed_stays(sites@, lo as int, at + 1, hi as int);
                        }
                        return Err(BinError::MalformedPoint { point: at });
                    },
                    PointPolicy::RejectPoint => {},
                }
            },
        }
        at += 1;
    }
    Ok(partial)
}

/// Bins the points `lo..hi` into a dense partial partition for `grid` with
/// bins of `bin_capacity` points. What becomes of a point without a cell is
/// for `malformed_policy` to say, as in `accumulate_sparse`. A point with a
/// cell outside the grid is passed over: whether such points end the run is
/// settled by `engine::screen` before any chunk is binned. A point that finds
/// its bin full is dropped and counted by the store.
pub fn accumulate_dense(
    sites: &Vec<Site>,
    lo: usize,
    hi: usize,
    grid: Grid,
    bin_capacity: usize,
    malformed_policy: PointPolicy,
) -> (outcome: Result<DenseStore, BinError>)
    requires
        lo <= hi <= sites.len(),
        grid.wf(),
        bin_capacity > 0,
    ensures
        match outcome {
            Ok(partial) => {
                &&& local_error(sites@, malformed_policy, lo as int, hi as int) is None
                &&& partial.wf()
                &&& partial.spec_grid() == grid
                &&& partial.spec_capacity() == bin_capacity
                &&& partial@ == dense_slots(
                    sites@,
                    grid,
                    bin_capacity as int,
                    lo as int,
                    hi as int,
                )
                &&& partial.spec_placed() + partial.spec_dropped() + malformed_count(
                    sites@,
                    lo as int,
                    hi as int,
                ) + outside_count(sites@, grid, lo as int, hi as int) == hi - lo
            },
            Err(error) => local_error(sites@, malformed_policy, lo as int, hi as int) == Some(
                error,
            ),
        },
{
    let mut partial = DenseStore::empty(grid, bin_capacity);
    let mut at: usize = lo;
    proof {
        partial.lemma_shape();
        let start = dense_slots(sites@, grid, bin_capacity as int, lo as int, lo as int);
        assert forall|slot: int| 0 <= slot < partial@.len() implies partial@[slot]
            == start[slot] by {}
    }
    while at < hi
        invariant
            lo <= at <= hi <= sites.len(),
            grid.wf(),
            bin_capacity > 0,
            partial.wf(),
            partial.spec_grid() == grid,
            partial.spec_capacity() == bin_capacity,
            partial@ == dense_slots(sites@, grid, bin_capacity as int, lo as int, at as int),
            partial.spec_placed() + partial.spec_dropped() + malformed_count(
                sites@,
                lo as int,
                at as int,
            ) + outside_count(sites@, grid, lo as int, at as int) == at - lo,
            local_error(sites@, malformed_policy, lo as int, at as int) is None,
        decreases hi - at,
    {
        proof {
            lemma_dense_slots_step(sites@, grid, bin_capacity as int, lo as int, at as int);
        }
        match sites[at] {
            Some(key) => {
                match grid.index_of(key) {
                    Some(index) => {
                        let _ = partial.insert(index, at);
                    },
                    None => {},
                }
            },
            None => {
                match malformed_policy {
                    PointPolicy::RejectRun => {
                        proof {
                            lemma_first_malformed_stays(sites@, lo as int, at + 1, hi as int);
                        }
                        return Err(BinError::MalformedPoint { point: at });
                    },
                    PointPolicy::RejectPoint => {},
                }
            },
        }
        at += 1;
    }
    Ok(partial)
}

/// Once a point without a cell has been found, looking at more points does
/// not change which is the first.
pub proof fn lemma_first_malformed_stays(sites: Seq<Site>, lo: int, upto: int, later: int)
    requires
        lo <= upto <= later,
        first_malformed(sites, lo, upto) is Some,
    ensures
        first_malformed(sites, lo, later) == first_malformed(sites, lo, upto),
    decreases later - upto,
{
    if upto < later {
        lemma_first_malformed_stays(sites, lo, upto, later - 1);
    }
}

} // verus!
