//! The binning engine: it screens the options and the points, divides the
//! input into chunks, has every chunk binned by a local accumulator, folds
//! the partial partitions into one store and reports the statistics.

use vstd::prelude::*;
use crate::accumulator::{
    accumulate_dense, accumulate_sparse, lemma_first_malformed_stays, local_error,
};
use crate::cells::{is_busiest, total_points, Cells};
use crate::chunks::{covers, plan_chunks};
use crate::config::{BinError, Config, ConfigError, OverflowPolicy, PointPolicy, Stats};
use crate::coordinator::{
    dense_views, fold_cells, fold_slots, merge_dense, merge_sparse, seen_by, sparse_views,
};
use crate::dense::{config_error, is_busiest_slot, DenseStore};
use crate::geometry::{cell_at, cell_of, Grid, Point};
use crate::partition::{
    dense_slots, first_malformed, first_outside, lemma_dense_slots_split,
    lemma_first_malformed_split, lemma_first_outside_stays, lemma_ids_split,
    lemma_outside_split, lemma_sparse_bins_split, lemma_sparse_bins_total, malformed_count,
    outside_count, sparse_bins, Site,
};
use crate::slots::slots_total;
use crate::sparse::SparseStore;

verus! {

/// The sites of a sequence of points in a grid of bins of size `bin_size`.
pub open spec fn sites_of(points: Seq<Point>, bin_size: i64) -> Seq<Site> {
    Seq::new(
        points.len(),
        |k: int|
            {
                let cell = cell_at(points[k].x as int, points[k].y as int, bin_size as int);
                Some((cell.0 as i64, cell.1 as i64))
            },
    )
}

/// Maps every point to its cell. A bin size of zero or less is refused as
/// `BinSize`.
pub fn locate(points: &Vec<Point>, bin_size: i64) -> (located: Result<Vec<Site>, BinError>)
    ensures
        match located {
            Ok(sites) => bin_size > 0 && sites@ == sites_of(points@, bin_size),
            Err(error) => bin_size <= 0 && error == BinError::Configuration(ConfigError::BinSize),
        },
{
    if bin_size <= 0 {
        return Err(BinError::Configuration(ConfigError::BinSize));
    }
    let mut sites: Vec<Site> = Vec::new();
    let mut at: usize = 0;
    while at < points.len()
        invariant
            bin_size > 0,
            at <= points.len(),
            sites.len() == at,
            forall|k: int| 0 <= k < at ==> sites[k] == sites_of(points@, bin_size)[k],
        decreases points.len() - at,
    {
        let key = cell_of(points[at].x, points[at].y, bin_size);
        sites.push(Some(key));
        at += 1;
    }
    Ok(sites)
}

/// The domain error of an input: where points outside the grid end the run,
/// the first such point.
pub open spec fn domain_error(sites: Seq<Site>, grid: Grid, policy: PointPolicy) -> Option<
    BinError,
> {
    if policy == PointPolicy::RejectRun && first_outside(sites, grid, 0, sites.len() as int)
        is Some {
        Some(
            BinError::OutOfDomain {
                point: first_outside(sites, grid, 0, sites.len() as int)->0 as usize,
            },
        )
    } else {
        None
    }
}

/// Looks at the cell of every point before any point is binned. Where points
/// outside the grid end the run, the run is refused with the first of them;
/// otherwise the answer is the number of points that will be left out
/// because their cell lies outside the grid.
pub fn screen(sites: &Vec<Site>, grid: Grid, domain_policy: PointPolicy) -> (verdict: Result<
    usize,
    BinError,
>)
    requires
        grid.wf(),
    ensures
        match verdict {
            Ok(outside) => {
                &&& domain_error(sites@, grid, domain_policy) is None
                &&& outside == outside_count(sites@, grid, 0, sites.len() as int)
            },
            Err(error) => domain_error(sites@, grid, domain_policy) == Some(error),
        },
{
    let mut outside: usize = 0;
    let mut at: usize = 0;
    while at < sites.len()
        invariant
            at <= sites.len(),
            grid.wf(),
            domain_policy == PointPolicy::RejectRun ==> first_outside(sites@, grid, 0, at as int)
                is None,
            outside == outside_count(sites@, grid, 0, at as int),
            outside <= at,
        decreases sites.len() - at,
    {
        match sites[at] {
            Some(key) => {
                if grid.index_of(key).is_none() {
                    match domain_policy {
                        PointPolicy::RejectRun => {
                            proof {
                                lemma_first_outside_stays(
                                    sites@,
                                    grid,
                                    0,
                                    at + 1,
                                    sites.len() as int,
                                );
                            }
                            return Err(BinError::OutOfDomain { point: at });
                        },
                        PointPolicy::RejectPoint => {
                            outside += 1;
                        },
                    }
                }
            },
            None => {},
        }
        at += 1;
    }
    Ok(outside)
}

/// The end of the chunk before chunk `upto`, where the next begins.
pub open spec fn reached(chunks: Seq<(usize, usize)>, upto: int) -> int {
    if upto <= 0 {
        0
    } else {
        chunks[upto - 1].1 as int
    }
}

/// Folding the partial partitions of the first `upto` chunks gives the
/// partition of all points before the end of the last of them.
pub proof fn lemma_fold_chunks_sparse(
    sites: Seq<Site>,
    chunks: Seq<(usize, usize)>,
    views: Seq<Cells>,
    upto: int,
)
    requires
        covers(chunks, sites.len() as int),
        views.len() == chunks.len(),
        forall|k: int|
            0 <= k < chunks.len() ==> #[trigger] views[k] == sparse_bins(
                sites,
                chunks[k].0 as int,
                chunks[k].1 as int,
            ),
        0 <= upto <= chunks.len(),
    ensures
        fold_cells(Map::empty(), views.take(upto)) == sparse_bins(sites, 0, reached(chunks, upto)),
    decreases upto,
{
    if upto > 0 {
        lemma_fold_chunks_sparse(sites, chunks, views, upto - 1);
        assert(views.take(upto).drop_last() =~= views.take(upto - 1));
        lemma_sparse_bins_split(sites, 0, chunks[upto - 1].0 as int, chunks[upto - 1].1 as int);
    }
}

/// Folding the partial partitions of the first `upto` chunks into an empty
/// dense store gives the partition of all points before the end of the last
/// of them, and every such point with a cell inside the grid has been
/// placed or dropped by one of the partial stores.
pub proof fn lemma_fold_chunks_dense(
    sites: Seq<Site>,
    grid: Grid,
    capacity: int,
    chunks: Seq<(usize, usize)>,
    partials: Seq<DenseStore>,
    upto: int,
)
    requires
        grid.wf(),
        capacity >= 0,
        covers(chunks, sites.len() as int),
        partials.len() == chunks.len(),
        forall|k: int|
            0 <= k < chunks.len() ==> (#[trigger] partials[k])@ == dense_slots(
                sites,
                grid,
                capacity,
                chunks[k].0 as int,
                chunks[k].1 as int,
            ),
        forall|k: int|
            0 <= k < chunks.len() ==> (#[trigger] partials[k]).spec_placed()
                + partials[k].spec_dropped() + malformed_count(
                sites,
                chunks[k].0 as int,
                chunks[k].1 as int,
            ) + outside_count(sites, grid, chunks[k].0 as int, chunks[k].1 as int) == chunks[k].1
                - chunks[k].0,
        0 <= upto <= chunks.len(),
    ensures
        fold_slots(
            dense_slots(sites, grid, capacity, 0, 0),
            dense_views(partials).take(upto),
            capacity,
        ) == dense_slots(sites, grid, capacity, 0, reached(chunks, upto)),
        seen_by(partials.take(upto)) + malformed_count(sites, 0, reached(chunks, upto))
            + outside_count(sites, grid, 0, reached(chunks, upto)) == reached(chunks, upto),
    decreases upto,
{
    let views = dense_views(partials);
    if upto > 0 {
        lemma_fold_chunks_dense(sites, grid, capacity, chunks, partials, upto - 1);
        assert(views.take(upto).drop_last() =~= views.take(upto - 1));
        assert(partials.take(upto).drop_last() =~= partials.take(upto - 1));
        let lo = chunks[upto - 1].0 as int;
        let hi = chunks[upto - 1].1 as int;
        lemma_dense_slots_split(sites, grid, capacity, 0, lo, hi);
        lemma_ids_split(sites, None, 0, lo, hi);
        lemma_outside_split(sites, grid, 0, lo, hi);
    }
}

/// Why a run of the sparse backend ends without a partition, if it does: no
/// worker, or a point without a cell where such points end the run.
pub open spec fn sparse_verdict(sites: Seq<Site>, config: Config) -> Option<BinError> {
    if config.worker_count == 0 {
        Some(BinError::Configuration(ConfigError::WorkerCount))
    } else {
        local_error(sites, config.malformed_policy, 0, sites.len() as int)
    }
}

/// The number of points that a run of the dense backend drops at full bins:
/// those with a cell inside the grid that are not in the partition.
pub open spec fn dense_dropped(sites: Seq<Site>, grid: Grid, capacity: int) -> int {
    sites.len() - malformed_count(sites, 0, sites.len() as int) - outside_count(
        sites,
        grid,
        0,
        sites.len() as int,
    ) - slots_total(dense_slots(sites, grid, capacity, 0, sites.len() as int))
}

/// The grid that the options describe.
pub open spec fn grid_of(config: Config) -> Grid {
    Grid { width: config.grid_width, height: config.grid_height }
}

/// Why a run of the dense backend ends without a partition, if it does: an
/// option out of range; or else a point outside the grid where such points
/// end the run; or else a point without a cell where such points end the
/// run; or else dropped points where overflow is an error.
pub open spec fn dense_verdict(sites: Seq<Site>, config: Config) -> Option<BinError> {
    if config_error(config.grid_width, config.grid_height, config.bin_capacity) is Some {
        config_error(config.grid_width, config.grid_height, config.bin_capacity)
    } else if config.worker_count == 0 {
        Some(BinError::Configuration(ConfigError::WorkerCount))
    } else if domain_error(sites, grid_of(config), config.domain_policy) is Some {
        domain_error(sites, grid_of(config), config.domain_policy)
    } else if local_error(sites, config.malformed_policy, 0, sites.len() as int) is Some {
        local_error(sites, config.malformed_policy, 0, sites.len() as int)
    } else if config.overflow_policy == OverflowPolicy::Error && dense_dropped(
        sites,
        grid_of(config),
        config.bin_capacity as int,
    ) > 0 {
        Some(
            BinError::CapacityExceeded {
                dropped: dense_dropped(sites, grid_of(config), config.bin_capacity as int) as usize,
            },
        )
    } else {
        None
    }
}

/// Ends a run of the sparse backend on `points` points: the merged store,
/// with the statistics read from it. The points that are not in the store
/// are those that were passed over for want of a cell.
pub fn conclude_sparse(store: SparseStore, points: usize) -> (run: (SparseStore, Stats))
    requires
        store.wf(),
        total_points(store@) <= points,
    ensures
        run.0 == store,
        run.1.placed == total_points(store@),
        run.1.dropped == 0,
        run.1.malformed == points - total_points(store@),
        run.1.out_of_domain == 0,
        is_busiest(store@, run.1.busiest),
{
    let placed = store.total();
    let stats = Stats {
        placed,
        dropped: 0,
        malformed: points - placed,
        out_of_domain: 0,
        busiest: store.busiest(),
    };
    (store, stats)
}

/// Ends a run of the dense backend on `points` points, of which
/// `out_of_domain` were passed over because their cell lies outside the
/// grid. Where overflow is an error and the store has dropped points, the run
/// ends in `CapacityExceeded` with their number. Otherwise the answer is the
/// merged store, with the statistics read from it; the points that were
/// neither placed nor dropped nor outside the grid are those that were
/// passed over for want of a cell.
pub fn conclude_dense(
    store: DenseStore,
    points: usize,
    out_of_domain: usize,
    overflow_policy: OverflowPolicy,
) -> (outcome: Result<(DenseStore, Stats), BinError>)
    requires
        store.wf(),
        store.spec_placed() + store.spec_dropped() + out_of_domain <= points,
    ensures
        match outcome {
            Ok(run) => {
                &&& overflow_policy == OverflowPolicy::Drop || store.spec_dropped() == 0
                &&& run.0 == store
                &&& run.1.placed == store.spec_placed()
                &&& run.1.dropped == store.spec_dropped()
                &&& run.1.malformed == points - store.spec_placed() - store.spec_dropped()
                    - out_of_domain
                &&& run.1.out_of_domain == out_of_domain
                &&& is_busiest_slot(store@, store.spec_grid(), run.1.busiest)
            },
            Err(error) => {
                &&& overflow_policy == OverflowPolicy::Error
                &&& store.spec_dropped() > 0
                &&& error == BinError::CapacityExceeded { dropped: store.spec_dropped() }
            },
        },
{
    let dropped = store.dropped();
    match overflow_policy {
        OverflowPolicy::Error => {
            if dropped > 0 {
                return Err(BinError::CapacityExceeded { dropped });
            }
        },
        OverflowPolicy::Drop => {},
    }
    let placed = store.placed();
    let stats = Stats {
        placed,
        dropped,
        malformed: points - placed - dropped - out_of_domain,
        out_of_domain,
        busiest: store.busiest(),
    };
    Ok((store, stats))
}

/// Bins the points at `sites` with the sparse backend. The run is refused
/// as `sparse_verdict` says. Otherwise the store holds, for every occupied
/// cell, the ids of its points in input order, whatever the number of
/// workers; every point is in the store or counted as malformed.
pub fn bin_sites_sparse(sites: &Vec<Site>, config: &Config) -> (outcome: Result<
    (SparseStore, Stats),
    BinError,
>)
    ensures
        match outcome {
            Ok(run) => {
                &&& sparse_verdict(sites@, *config) is None
                &&& run.0.wf()
                &&& run.0@ == sparse_bins(sites@, 0, sites.len() as int)
                &&& run.1.placed == total_points(run.0@)
                &&& run.1.placed + run.1.malformed == sites.len()
                &&& run.1.malformed == malformed_count(sites@, 0, sites.len() as int)
                &&& run.1.dropped == 0
                &&& run.1.out_of_domain == 0
                &&& is_busiest(run.0@, run.1.busiest)
            },
            Err(error) => sparse_verdict(sites@, *config) == Some(error),
        },
{
    if config.worker_count == 0 {
        return Err(BinError::Configuration(ConfigError::WorkerCount));
    }
    let chunks = plan_chunks(sites.len(), config.worker_count);
    let mut partials: Vec<SparseStore> = Vec::new();
    let mut at: usize = 0;
    while at < chunks.len()
        invariant
            at <= chunks.len(),
            config.worker_count != 0,
            covers(chunks@, sites.len() as int),
            partials.len() == at,
            first_malformed(sites@, 0, reached(chunks@, at as int)) is None
                || config.malformed_policy == PointPolicy::RejectPoint,
            forall|k: int| 0 <= k < at ==> (#[trigger] partials[k]).wf(),
            forall|k: int|
                0 <= k < at ==> (#[trigger] partials[k])@ == sparse_bins(
                    sites@,
                    chunks[k].0 as int,
                    chunks[k].1 as int,
                ),
        decreases chunks.len() - at,
    {
        proof {
            lemma_first_malformed_split(
                sites@,
                0,
                chunks[at as int].0 as int,
                chunks[at as int].1 as int,
            );
        }
        match accumulate_sparse(sites, chunks[at].0, chunks[at].1, config.malformed_policy) {
            Ok(partial) => {
                partials.push(partial);
            },
            Err(error) => {
                proof {
                    lemma_first_malformed_stays(
                        sites@,
                        0,
                        chunks[at as int].1 as int,
                        sites.len() as int,
                    );
                }
                return Err(error);
            },
        }
        at += 1;
    }
    let mut store = SparseStore::new();
    proof {
        let views = sparse_views(partials@);
        lemma_fold_chunks_sparse(sites@, chunks@, views, chunks.len() as int);
        assert(views.take(chunks.len() as int) =~= views);
        lemma_sparse_bins_total(sites@, 0, sites.len() as int);
    }
    merge_sparse(&mut store, partials);
    Ok(conclude_sparse(store, sites.len()))
}

/// Bins the points at `sites` with the dense backend. The run is refused as
/// `dense_verdict` says. Otherwise every slot of the store holds the ids of
/// the points of its cell in input order, as far as the capacity reaches and
/// whatever the number of workers; every point is placed, dropped, or
/// counted as malformed or as out of the domain.
pub fn bin_sites_dense(sites: &Vec<Site>, config: &Config) -> (outcome: Result<
    (DenseStore, Stats),
    BinError,
>)
    ensures
        match outcome {
            Ok(run) => {
                &&& dense_verdict(sites@, *config) is None
                &&& run.0.wf()
                &&& run.0.spec_grid() == grid_of(*config)
                &&& run.0.spec_capacity() == config.bin_capacity
                &&& run.0@ == dense_slots(
                    sites@,
                    grid_of(*config),
                    config.bin_capacity as int,
                    0,
                    sites.len() as int,
                )
                &&& run.1.placed == slots_total(run.0@)
                &&& run.1.placed == run.0.spec_placed()
                &&& run.1.dropped == run.0.spec_dropped()
                &&& run.1.dropped == dense_dropped(
                    sites@,
                    grid_of(*config),
                    config.bin_capacity as int,
                )
                &&& run.1.malformed == malformed_count(sites@, 0, sites.len() as int)
                &&& run.1.out_of_domain == outside_count(
                    sites@,
                    grid_of(*config),
                    0,
                    sites.len() as int,
                )
                &&& run.1.placed + run.1.dropped + run.1.malformed + run.1.out_of_domain
                    == sites.len()
                &&& is_busiest_slot(run.0@, grid_of(*config), run.1.busiest)
            },
            Err(error) => dense_verdict(sites@, *config) == Some(error),
        },
{
    let mut store = match DenseStore::new(
        config.grid_width,
        config.grid_height,
        config.bin_capacity,
    ) {
        Ok(store) => store,
        Err(error) => {
            return Err(error);
        },
    };
    if config.worker_count == 0 {
        return Err(BinError::Configuration(ConfigError::WorkerCount));
    }
    let grid = store.grid();
    let capacity = config.bin_capacity;
    proof {
        store.lemma_shape();
    }
    let outside = match screen(sites, grid, config.domain_policy) {
        Ok(outside) => outside,
        Err(error) => {
            return Err(error);
        },
    };
    let chunks = plan_chunks(sites.len(), config.worker_count);
    let mut partials: Vec<DenseStore> = Vec::new();
    let mut at: usize = 0;
    while at < chunks.len()
        invariant
            at <= chunks.len(),
            grid.wf(),
            capacity > 0,
            config_error(config.grid_width, config.grid_height, config.bin_capacity) is None,
            config.worker_count != 0,
            grid == grid_of(*config),
            domain_error(sites@, grid, config.domain_policy) is None,
            covers(chunks@, sites.len() as int),
            partials.len() == at,
            first_malformed(sites@, 0, reached(chunks@, at as int)) is None
                || config.malformed_policy == PointPolicy::RejectPoint,
            forall|k: int|
                0 <= k < at ==> (#[trigger] partials[k]).wf() && partials[k].spec_grid() == grid
                    && partials[k].spec_capacity() == capacity,
            forall|k: int|
                0 <= k < at ==> (#[trigger] partials[k])@ == dense_slots(
                    sites@,
                    grid,
                    capacity as int,
                    chunks[k].0 as int,
                    chunks[k].1 as int,
                ),
            forall|k: int|
                0 <= k < at ==> (#[trigger] partials[k]).spec_placed()
                    + partials[k].spec_dropped() + malformed_count(
                    sites@,
                    chunks[k].0 as int,
                    chunks[k].1 as int,
                ) + outside_count(sites@, grid, chunks[k].0 as int, chunks[k].1 as int)
                    == chunks[k].1 - chunks[k].0,
        decreases chunks.len() - at,
    {
        proof {
            lemma_first_malformed_split(
                sites@,
                0,
                chunks[at as int].0 as int,
                chunks[at as int].1 as int,
            );
        }
        match accumulate_dense(
            sites,
            chunks[at].0,
            chunks[at].1,
            grid,
            capacity,
            config.malformed_policy,
        ) {
            Ok(partial) => {
                partials.push(partial);
            },
            Err(error) => {
                proof {
                    lemma_first_malformed_stays(
                        sites@,
                        0,
                        chunks[at as int].1 as int,
                        sites.len() as int,
                    );
                }
                return Err(error);
            },
        }
        at += 1;
    }
    proof {
        let start = dense_slots(sites@, grid, capacity as int, 0, 0);
        assert forall|slot: int| 0 <= slot < store@.len() implies store@[slot] == start[slot] by {}
        assert(store@ =~= start);
        lemma_fold_chunks_dense(
            sites@,
            grid,
            capacity as int,
            chunks@,
            partials@,
            chunks.len() as int,
        );
        assert(dense_views(partials@).take(chunks.len() as int) =~= dense_views(partials@));
        assert(partials@.take(chunks.len() as int) =~= partials@);
    }
    merge_dense(&mut store, &partials);
    proof {
        store.lemma_shape();
    }
    conclude_dense(store, sites.len(), outside, config.overflow_policy)
}

/// Bins `points` into a grid of bins of size `bin_size` with the sparse
/// backend: every point is mapped to its cell, and the cells are binned as
/// `bin_sites_sparse` bins them. A bin size of zero or less is refused first.
pub fn bin_sparse(points: &Vec<Point>, bin_size: i64, config: &Config) -> (outcome: Result<
    (SparseStore, Stats),
    BinError,
>)
    ensures
        match outcome {
            Ok(run) => {
                &&& bin_size > 0
                &&& sparse_verdict(sites_of(points@, bin_size), *config) is None
                &&& run.0.wf()
                &&& run.0@ == sparse_bins(sites_of(points@, bin_size), 0, points.len() as int)
                &&& run.1.placed == points.len()
                &&& run.1.placed == total_points(run.0@)
                &&& run.1.dropped == 0
                &&& run.1.malformed == 0
                &&& run.1.out_of_domain == 0
                &&& is_busiest(run.0@, run.1.busiest)
            },
            Err(error) => if bin_size <= 0 {
                error == BinError::Configuration(ConfigError::BinSize)
            } else {
                sparse_verdict(sites_of(points@, bin_size), *config) == Some(error)
            },
        },
{
    let sites = match locate(points, bin_size) {
        Ok(sites) => sites,
        Err(error) => {
            return Err(error);
        },
    };
    proof {
        lemma_no_malformed(sites@, sites.len() as int);
    }
    bin_sites_sparse(&sites, config)
}

/// Bins `points` into a grid of bins of size `bin_size` with the dense
/// backend: every point is mapped to its cell, and the cells are binned as
/// `bin_sites_dense` bins them. A bin size of zero or less is refused first.
pub fn bin_dense(points: &Vec<Point>, bin_size: i64, config: &Config) -> (outcome: Result<
    (DenseStore, Stats),
    BinError,
>)
    ensures
        match outcome {
            Ok(run) => {
                &&& bin_size > 0
                &&& dense_verdict(sites_of(points@, bin_size), *config) is None
                &&& run.0.wf()
                &&& run.0.spec_grid() == grid_of(*config)
                &&& run.0.spec_capacity() == config.bin_capacity
                &&& run.0@ == dense_slots(
                    sites_of(points@, bin_size),
                    grid_of(*config),
                    config.bin_capacity as int,
                    0,
                    points.len() as int,
                )
                &&& run.1.placed == slots_total(run.0@)
                &&& run.1.dropped == dense_dropped(
                    sites_of(points@, bin_size),
                    grid_of(*config),
                    config.bin_capacity as int,
                )
                &&& run.1.malformed == 0
                &&& run.1.out_of_domain == outside_count(
                    sites_of(points@, bin_size),
                    grid_of(*config),
                    0,
                    points.len() as int,
                )
                &&& run.1.placed + run.1.dropped + run.1.out_of_domain == points.len()
                &&& is_busiest_slot(run.0@, grid_of(*config), run.1.busiest)
            },
            Err(error) => if bin_size <= 0 {
                error == BinError::Configuration(ConfigError::BinSize)
            } else {
                dense_verdict(sites_of(points@, bin_size), *config) == Some(error)
            },
        },
{
    let sites = match locate(points, bin_size) {
        Ok(sites) => sites,
        Err(error) => {
            return Err(error);
        },
    };
    proof {
        lemma_no_malformed(sites@, sites.len() as int);
    }
    bin_sites_dense(&sites, config)
}

/// Where every point has a cell, none is malformed.
pub proof fn lemma_no_malformed(sites: Seq<Site>, upto: int)
    requires
        0 <= upto <= sites.len(),
        forall|k: int| 0 <= k < sites.len() ==> (#[trigger] sites[k]) is Some,
    ensures
        malformed_count(sites, 0, upto) == 0,
    decreases upto,
{
    if upto > 0 {
        lemma_no_malformed(sites, upto - 1);
    }
}

/// The points behind a list of ids, as a store hands it out for a cell: the
/// entry of `input` at each id, in the order of the ids. The answer is `None`
/// if an id is not the position of a point of `input`.
pub fn points_of<T: Copy>(input: &Vec<T>, ids: &Vec<usize>) -> (found: Option<Vec<T>>)
    ensures
        found is Some <==> forall|k: int| 0 <= k < ids.len() ==> (#[trigger] ids[k]) < input.len(),
        found matches Some(points) ==> {
            &&& points.len() == ids.len()
            &&& forall|k: int|
                0 <= k < ids.len() ==> (#[trigger] points[k]) == input[ids[k] as int]
        },
{
    let mut points: Vec<T> = Vec::new();
    let mut at: usize = 0;
    while at < ids.len()
        invariant
            at <= ids.len(),
            points.len() == at,
            forall|k: int| 0 <= k < at ==> (#[trigger] ids[k]) < input.len(),
            forall|k: int| 0 <= k < at ==> (#[trigger] points[k]) == input[ids[k] as int],
        decreases ids.len() - at,
    {
        let id = ids[at];
        if id >= input.len() {
            return None;
        }
        points.push(input[id]);
        at += 1;
    }
    Some(points)
}

} // verus!
