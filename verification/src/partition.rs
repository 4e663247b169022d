//! What binning a point sequence means: the ids that each cell receives from
//! a range of the input, stated without reference to stores or workers.

use vstd::prelude::*;
use crate::cells::{
    bin_at, lemma_total_insert, merge_cells, total_points, with_point, CellKey,
    Cells,
};
use crate::geometry::Grid;
use crate::slots::{capped, lemma_capped_merge, merge_slots, Slots};

verus! {

/// Where a point lies: `Some(cell)`, or `None` for a point that has no cell
/// because a coordinate of it is not a finite number.
pub type Site = Option<CellKey>;

/// The ids in `lo..hi`, ascending, of the points whose site is `site`. A
/// point's id is its position in the input sequence.
pub open spec fn ids_with(sites: Seq<Site>, site: Site, lo: int, hi: int) -> Seq<usize>
    decreases hi - lo,
{
    if hi <= lo {
        Seq::empty()
    } else if sites[hi - 1] == site {
        ids_with(sites, site, lo, hi - 1).push((hi - 1) as usize)
    } else {
        ids_with(sites, site, lo, hi - 1)
    }
}

/// The ids in `lo..hi` of the points that fall into cell `key`.
pub open spec fn ids_in_cell(sites: Seq<Site>, key: CellKey, lo: int, hi: int) -> Seq<usize> {
    ids_with(sites, Some(key), lo, hi)
}

/// The number of points in `lo..hi` that have no cell.
pub open spec fn malformed_count(sites: Seq<Site>, lo: int, hi: int) -> nat {
    ids_with(sites, None, lo, hi).len()
}

/// The id of the first point in `lo..hi` that has no cell, if there is one.
pub open spec fn first_malformed(sites: Seq<Site>, lo: int, hi: int) -> Option<int>
    decreases hi - lo,
{
    if hi <= lo {
        None
    } else if first_malformed(sites, lo, hi - 1) is Some {
        first_malformed(sites, lo, hi - 1)
    } else if sites[hi - 1] is None {
        Some(hi - 1)
    } else {
        None
    }
}

/// In a range of the input, the first point without a cell is that of the
/// first half, or else that of the second.
pub proof fn lemma_first_malformed_split(sites: Seq<Site>, lo: int, mid: int, hi: int)
    requires
        lo <= mid <= hi,
    ensures
        first_malformed(sites, lo, hi) == if first_malformed(sites, lo, mid) is Some {
            first_malformed(sites, lo, mid)
        } else {
            first_malformed(sites, mid, hi)
        },
    decreases hi - mid,
{
    if mid < hi {
        lemma_first_malformed_split(sites, lo, mid, hi - 1);
    }
}

/// The sparse partition of the points `lo..hi`: each occupied cell with the
/// ids of its points in input order.
pub open spec fn sparse_bins(sites: Seq<Site>, lo: int, hi: int) -> Cells {
    Map::new(
        |key: CellKey| ids_in_cell(sites, key, lo, hi).len() > 0,
        |key: CellKey| ids_in_cell(sites, key, lo, hi),
    )
}

/// A range of the input is binned by binning its two halves one after the
/// other.
pub proof fn lemma_ids_split(sites: Seq<Site>, site: Site, lo: int, mid: int, hi: int)
    requires
        lo <= mid <= hi,
    ensures
        ids_with(sites, site, lo, hi) == ids_with(sites, site, lo, mid) + ids_with(
            sites,
            site,
            mid,
            hi,
        ),
    decreases hi - mid,
{
    if mid < hi {
        lemma_ids_split(sites, site, lo, mid, hi - 1);
    }
}

/// Every id listed lies in the range and carries the site asked for, and the
/// ids are listed in strictly ascending order.
pub proof fn lemma_ids_sound(sites: Seq<Site>, site: Site, lo: int, hi: int)
    requires
        0 <= lo,
        hi <= sites.len() <= usize::MAX,
    ensures
        ids_with(sites, site, lo, hi).len() <= if hi >= lo { hi - lo } else { 0 },
        forall|at: int|
            0 <= at < ids_with(sites, site, lo, hi).len() ==> {
                let id = #[trigger] ids_with(sites, site, lo, hi)[at];
                lo <= id < hi && sites[id as int] == site
            },
        forall|a: int, b: int|
            0 <= a < b < ids_with(sites, site, lo, hi).len() ==> ids_with(sites, site, lo, hi)[a]
                < ids_with(sites, site, lo, hi)[b],
    decreases hi - lo,
{
    if hi > lo {
        lemma_ids_sound(sites, site, lo, hi - 1);
    }
}

/// Every point of the range that carries the site is listed.
pub proof fn lemma_ids_complete(sites: Seq<Site>, site: Site, lo: int, hi: int, id: int)
    requires
        0 <= lo <= id < hi,
        hi <= sites.len() <= usize::MAX,
        sites[id] == site,
    ensures
        ids_with(sites, site, lo, hi).contains(id as usize),
    decreases hi - lo,
{
    if id == hi - 1 {
        let listed = ids_with(sites, site, lo, hi);
        assert(listed[listed.len() - 1] == id as usize);
    } else {
        lemma_ids_complete(sites, site, lo, hi - 1, id);
        let before = ids_with(sites, site, lo, hi - 1);
        let at = choose|at: int| 0 <= at < before.len() && before[at] == id as usize;
        assert(ids_with(sites, site, lo, hi)[at] == id as usize);
    }
}

/// Binning one more point: it joins its cell, or is passed over if it has
/// none.
pub proof fn lemma_sparse_bins_step(sites: Seq<Site>, lo: int, hi: int)
    requires
        0 <= lo <= hi < sites.len(),
    ensures
        sparse_bins(sites, lo, hi + 1) == match sites[hi] {
            Some(key) => with_point(sparse_bins(sites, lo, hi), key, hi as usize),
            None => sparse_bins(sites, lo, hi),
        },
{
    if let Some(key) = sites[hi] {
        assert(bin_at(sparse_bins(sites, lo, hi), key) =~= ids_in_cell(sites, key, lo, hi));
    }
}

/// The partition of a range is the merge of the partitions of its two halves.
pub proof fn lemma_sparse_bins_split(sites: Seq<Site>, lo: int, mid: int, hi: int)
    requires
        lo <= mid <= hi,
    ensures
        sparse_bins(sites, lo, hi) == merge_cells(
            sparse_bins(sites, lo, mid),
            sparse_bins(sites, mid, hi),
        ),
{
    assert forall|key: CellKey|
        ids_in_cell(sites, key, lo, hi) == #[trigger] ids_in_cell(sites, key, lo, mid)
            + ids_in_cell(sites, key, mid, hi) by {
        lemma_ids_split(sites, Some(key), lo, mid, hi);
    }
}

/// The partition of a range lists finitely many cells, and its bins hold
/// every point of the range that has a cell.
pub proof fn lemma_sparse_bins_total(sites: Seq<Site>, lo: int, hi: int)
    requires
        0 <= lo <= hi <= sites.len(),
    ensures
        sparse_bins(sites, lo, hi).dom().finite(),
        total_points(sparse_bins(sites, lo, hi)) + malformed_count(sites, lo, hi) == hi - lo,
    decreases hi - lo,
{
    if hi == lo {
        assert(sparse_bins(sites, lo, hi) =~= Map::empty());
    } else {
        lemma_sparse_bins_total(sites, lo, hi - 1);
        lemma_sparse_bins_step(sites, lo, hi - 1);
        let before = sparse_bins(sites, lo, hi - 1);
        match sites[hi - 1] {
            Some(key) => {
                lemma_total_insert(before, key, bin_at(before, key).push((hi - 1) as usize));
            },
            None => {},
        }
    }
}

/// The point has a cell, and the cell lies outside the grid.
pub open spec fn lies_outside(site: Site, grid: Grid) -> bool {
    site matches Some(key) && !grid.contains(key)
}

/// The number of points in `lo..hi` whose cell lies outside the grid.
pub open spec fn outside_count(sites: Seq<Site>, grid: Grid, lo: int, hi: int) -> nat
    decreases hi - lo,
{
    if hi <= lo {
        0
    } else if lies_outside(sites[hi - 1], grid) {
        outside_count(sites, grid, lo, hi - 1) + 1
    } else {
        outside_count(sites, grid, lo, hi - 1)
    }
}

/// The id of the first point in `lo..hi` whose cell lies outside the grid, if
/// there is one.
pub open spec fn first_outside(sites: Seq<Site>, grid: Grid, lo: int, hi: int) -> Option<int>
    decreases hi - lo,
{
    if hi <= lo {
        None
    } else if first_outside(sites, grid, lo, hi - 1) is Some {
        first_outside(sites, grid, lo, hi - 1)
    } else if lies_outside(sites[hi - 1], grid) {
        Some(hi - 1)
    } else {
        None
    }
}

/// Once a point outside the grid has been found, looking at more points does
/// not change which is the first.
pub proof fn lemma_first_outside_stays(sites: Seq<Site>, grid: Grid, lo: int, upto: int, later: int)
    requires
        lo <= upto <= later,
        first_outside(sites, grid, lo, upto) is Some,
    ensures
        first_outside(sites, grid, lo, later) == first_outside(sites, grid, lo, upto),
    decreases later - upto,
{
    if upto < later {
        lemma_first_outside_stays(sites, grid, lo, upto, later - 1);
    }
}

/// The dense partition of the points `lo..hi`: each slot of the grid with
/// the ids of the points of its cell in input order, as far as the capacity
/// reaches.
pub open spec fn dense_slots(sites: Seq<Site>, grid: Grid, capacity: int, lo: int, hi: int) -> Slots {
    Seq::new(
        grid.cells() as nat,
        |slot: int| capped(ids_in_cell(sites, grid.key_of(slot), lo, hi), capacity),
    )
}

/// The points outside the grid in a range are those of its two halves.
pub proof fn lemma_outside_split(sites: Seq<Site>, grid: Grid, lo: int, mid: int, hi: int)
    requires
        lo <= mid <= hi,
    ensures
        outside_count(sites, grid, lo, hi) == outside_count(sites, grid, lo, mid) + outside_count(
            sites,
            grid,
            mid,
            hi,
        ),
    decreases hi - mid,
{
    if mid < hi {
        lemma_outside_split(sites, grid, lo, mid, hi - 1);
    }
}

/// Binning one more point into the grid: it joins the slot of its cell if
/// the cell lies inside the grid and the slot has room, and changes nothing
/// otherwise.
pub proof fn lemma_dense_slots_step(sites: Seq<Site>, grid: Grid, capacity: int, lo: int, hi: int)
    requires
        grid.wf(),
        capacity >= 0,
        0 <= lo <= hi < sites.len(),
    ensures
        dense_slots(sites, grid, capacity, lo, hi + 1) == match sites[hi] {
            Some(key) => {
                let before = dense_slots(sites, grid, capacity, lo, hi);
                if grid.contains(key) && before[grid.slot_of(key)].len() < capacity {
                    before.update(grid.slot_of(key), before[grid.slot_of(key)].push(hi as usize))
                } else {
                    before
                }
            },
            None => dense_slots(sites, grid, capacity, lo, hi),
        },
{
    grid.lemma_slots();
    let before = dense_slots(sites, grid, capacity, lo, hi);
    let after = dense_slots(sites, grid, capacity, lo, hi + 1);
    match sites[hi] {
        Some(key) if grid.contains(key) => {
            let slot = grid.slot_of(key);
            assert forall|other: int|
                0 <= other < grid.cells() && other != slot implies after[other]
                == before[other] by {}
            if before[slot].len() >= capacity {
                assert(after[slot] =~= before[slot]);
            }
        },
        _ => {
            assert forall|other: int| 0 <= other < grid.cells() implies after[other]
                == before[other] by {}
        },
    }
}

/// The dense partition of a range is the merge of the partitions of its two
/// halves.
pub proof fn lemma_dense_slots_split(
    sites: Seq<Site>,
    grid: Grid,
    capacity: int,
    lo: int,
    mid: int,
    hi: int,
)
    requires
        capacity >= 0,
        lo <= mid <= hi,
    ensures
        dense_slots(sites, grid, capacity, lo, hi) == merge_slots(
            dense_slots(sites, grid, capacity, lo, mid),
            dense_slots(sites, grid, capacity, mid, hi),
            capacity,
        ),
{
    let whole = dense_slots(sites, grid, capacity, lo, hi);
    let merged = merge_slots(
        dense_slots(sites, grid, capacity, lo, mid),
        dense_slots(sites, grid, capacity, mid, hi),
        capacity,
    );
    assert forall|slot: int| 0 <= slot < whole.len() implies whole[slot] == merged[slot] by {
        let key = grid.key_of(slot);
        lemma_ids_split(sites, Some(key), lo, mid, hi);
        lemma_capped_merge(
            ids_in_cell(sites, key, lo, mid),
            ids_in_cell(sites, key, mid, hi),
            capacity,
        );
    }
}

} // verus!
