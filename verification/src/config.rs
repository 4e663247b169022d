//! The options of a binning run and the conditions under which a run, or a
//! point of it, is refused.

use vstd::prelude::*;

verus! {

/// What becomes of a point that cannot be binned: one without a cell, or, in
/// the dense backend, one whose cell lies outside the grid.
#[derive(Clone, Copy, Debug, PartialEq, Eq, Structural)]
pub enum PointPolicy {
    /// The run is refused before any point is binned.
    RejectRun,
    /// The point is left out of the partition and counted.
    RejectPoint,
}

/// What becomes of a run of the dense backend in which a bin was full when a
/// point arrived. The point is counted as dropped either way.
#[derive(Clone, Copy, Debug, PartialEq, Eq, Structural)]
pub enum OverflowPolicy {
    /// The run succeeds and reports the number of dropped points.
    Drop,
    /// The run ends in `CapacityExceeded` if any point was dropped.
    Error,
}

/// An option that no run can start with.
#[derive(Clone, Copy, Debug, PartialEq, Eq, Structural)]
pub enum ConfigError {
    /// The bin size is zero or negative.
    BinSize,
    /// The grid has no columns.
    GridWidth,
    /// The grid has no rows.
    GridHeight,
    /// The grid has more cells than can be indexed.
    GridTooLarge,
    /// The bins of the grid hold no point.
    BinCapacity,
    /// There is no worker.
    WorkerCount,
}

/// Why a run did not produce a partition.
#[derive(Clone, Copy, Debug, PartialEq, Eq, Structural)]
pub enum BinError {
    /// An option is out of range; nothing was binned.
    Configuration(ConfigError),
    /// The point with this id has no cell, and such points end the run.
    MalformedPoint { point: usize },
    /// The cell of the point with this id lies outside the grid, and such
    /// points end the run.
    OutOfDomain { point: usize },
    /// This many points found their bin full, and overflow ends the run.
    CapacityExceeded { dropped: usize },
    /// The worker with this number did not deliver its partial partition.
    WorkerFailure { worker: usize },
}

/// The options of a run. The grid, the bin capacity and the two policies on
/// overflow and on cells outside the grid are read by the dense backend
/// only.
#[derive(Clone, Copy, Debug, PartialEq, Eq, Structural)]
pub struct Config {
    /// The number of columns of the grid.
    pub grid_width: usize,
    /// The number of rows of the grid.
    pub grid_height: usize,
    /// The number of points that each bin of the grid holds.
    pub bin_capacity: usize,
    /// The number of workers among which the input is divided.
    pub worker_count: usize,
    /// Whether a run that dropped points at full bins still succeeds.
    pub overflow_policy: OverflowPolicy,
    /// What becomes of a point without a cell.
    pub malformed_policy: PointPolicy,
    /// What becomes of a point whose cell lies outside the grid.
    pub domain_policy: PointPolicy,
}

/// What a run reports besides the partition.
#[derive(Clone, Copy, Debug, PartialEq, Eq)]
pub struct Stats {
    /// The number of points that are in the partition.
    pub placed: usize,
    /// The number of points that arrived at a full bin.
    pub dropped: usize,
    /// The number of points that were left out because they have no cell.
    pub malformed: usize,
    /// The number of points that were left out because their cell lies
    /// outside the grid.
    pub out_of_domain: usize,
    /// The cell of maximum occupancy with its number of points, if any point
    /// was placed.
    pub busiest: Option<((i64, i64), usize)>,
}

} // verus!
