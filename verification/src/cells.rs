//! The mathematical model of a sparse partition: a finite map from cell keys
//! to the sequence of point ids held by each cell.

use vstd::prelude::*;

verus! {

/// A grid cell, named by its column `i` and row `j`.
pub type CellKey = (i64, i64);

/// The contents of a sparse partition, cell by cell.
pub type Cells = Map<CellKey, Seq<usize>>;

/// The points of cell `key`; a cell without an entry holds none.
pub open spec fn bin_at(cells: Cells, key: CellKey) -> Seq<usize> {
    if cells.dom().contains(key) {
        cells[key]
    } else {
        Seq::empty()
    }
}

/// No cell of the partition is listed with an empty bin.
pub open spec fn no_empty_bins(cells: Cells) -> bool {
    forall|key: CellKey| cells.dom().contains(key) ==> (#[trigger] cells[key]).len() > 0
}

/// The partition after point `point` has joined cell `key`.
pub open spec fn with_point(cells: Cells, key: CellKey, point: usize) -> Cells {
    cells.insert(key, bin_at(cells, key).push(point))
}

/// The partition that holds, in every cell, the points of `a` followed by
/// those of `b`.
pub open spec fn merge_cells(a: Cells, b: Cells) -> Cells {
    Map::new(
        |key: CellKey| a.dom().contains(key) || b.dom().contains(key),
        |key: CellKey| bin_at(a, key) + bin_at(b, key),
    )
}

/// The number of points held by all cells together.
pub open spec fn total_points(cells: Cells) -> nat
    decreases cells.dom().len(),
    when cells.dom().finite()
{
    if cells.dom().len() == 0 {
        0
    } else {
        let key = cells.dom().choose();
        cells[key].len() + total_points(cells.remove(key))
    }
}

/// The total does not depend on which cell is counted first.
pub proof fn lemma_total_remove(cells: Cells, key: CellKey)
    requires
        cells.dom().finite(),
        cells.dom().contains(key),
    ensures
        total_points(cells) == cells[key].len() + total_points(cells.remove(key)),
    decreases cells.dom().len(),
{
    let first = cells.dom().choose();
    if first != key {
        let rest = cells.remove(first);
        lemma_total_remove(rest, key);
        lemma_total_remove(cells.remove(key), first);
        assert(rest.remove(key) =~= cells.remove(key).remove(first));
    }
}

/// Replacing or adding one bin changes the total by the difference in length.
pub proof fn lemma_total_insert(cells: Cells, key: CellKey, bin: Seq<usize>)
    requires
        cells.dom().finite(),
    ensures
        total_points(cells.insert(key, bin)) + bin_at(cells, key).len() == total_points(cells)
            + bin.len(),
{
    let after = cells.insert(key, bin);
    lemma_total_remove(after, key);
    assert(after.remove(key) =~= cells.remove(key));
    if cells.dom().contains(key) {
        lemma_total_remove(cells, key);
    } else {
        assert(cells.remove(key) =~= cells);
    }
}

/// Merging adds the totals.
pub proof fn lemma_total_merge(a: Cells, b: Cells)
    requires
        a.dom().finite(),
        b.dom().finite(),
    ensures
        merge_cells(a, b).dom().finite(),
        total_points(merge_cells(a, b)) == total_points(a) + total_points(b),
    decreases b.dom().len(),
{
    if b.dom().len() == 0 {
        assert(merge_cells(a, b) =~= a);
    } else {
        let key = b.dom().choose();
        let rest = b.remove(key);
        lemma_total_merge(a, rest);
        let partly = merge_cells(a, rest);
        assert(merge_cells(a, b) =~= partly.insert(key, bin_at(a, key) + b[key]));
        lemma_total_insert(partly, key, bin_at(a, key) + b[key]);
    }
}

/// Cell `first` comes no later than cell `second` when the grid is read row
/// by row.
pub open spec fn row_major_le(first: CellKey, second: CellKey) -> bool {
    first.1 < second.1 || (first.1 == second.1 && first.0 <= second.0)
}

/// A cell with `count` points ranks no lower than another with `other_count`
/// points: it holds more, or as many and comes no later in row-major order.
pub open spec fn ranks_first(key: CellKey, count: int, other: CellKey, other_count: int) -> bool {
    count > other_count || (count == other_count && row_major_le(key, other))
}

/// `answer` names the cell of maximum occupancy with its count, the first
/// such cell in row-major order where several hold as many; it is `None`
/// where no cell is listed.
pub open spec fn is_busiest(cells: Cells, answer: Option<(CellKey, usize)>) -> bool {
    match answer {
        Some((key, count)) => {
            &&& cells.dom().contains(key)
            &&& cells[key].len() == count
            &&& forall|other: CellKey| #[trigger]
                cells.dom().contains(other) ==> ranks_first(
                    key,
                    count as int,
                    other,
                    cells[other].len() as int,
                )
        },
        None => forall|other: CellKey| !cells.dom().contains(other),
    }
}

} // verus!
