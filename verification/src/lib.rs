//! Binning of 2D points into a uniform grid.
//!
//! A run takes a sequence of points, maps every point to the cell it falls
//! into, divides the sequence into contiguous chunks, bins every chunk into
//! a partial partition of its own, and folds the partial partitions into
//! one store. Two stores are offered: a sparse one, an index from cell to a
//! growable bin, and a dense one, a bounded grid of bins of fixed capacity
//! that counts the points it has to drop.
//!
//! A point is known to the stores by its id, its position in the input. The
//! contracts are stated over `partition`, which says what the partition of
//! an input is, and `laws` proves what holds of every run: no point is lost
//! or counted twice, and neither the number of workers nor the order of
//! merging changes how many points a cell holds.

pub mod accumulator;
pub mod cells;
pub mod chunks;
pub mod config;
pub mod coordinator;
pub mod dense;
pub mod engine;
pub mod geometry;
pub mod laws;
pub mod partition;
pub mod slots;
pub mod sparse;
pub mod table;
