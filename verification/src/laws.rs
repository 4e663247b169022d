//! What holds of every binning run, stated over the models of the two
//! backends and proved from their definitions.

use vstd::prelude::*;
use vstd::multiset::Multiset;
use crate::cells::{bin_at, lemma_total_merge, merge_cells, total_points, CellKey, Cells};
use crate::chunks::{chunk_size, covers, is_plan, lemma_plan_covers};
use crate::coordinator::{fold_cells, fold_slots};
use crate::engine::{dense_dropped, lemma_no_malformed};
use crate::geometry::{cell_index, lemma_cell_index_unique, Grid};
use crate::partition::{
    dense_slots, first_malformed, first_outside, ids_in_cell, lemma_dense_slots_split, lemma_dense_slots_step,
    lemma_ids_complete, lemma_ids_sound, lemma_sparse_bins_total, lies_outside, malformed_count,
    outside_count, sparse_bins, Site,
};
use crate::slots::{
    lemma_slots_total_prefix, lemma_slots_total_update, merge_slots, slots_total, Slots,
};

verus! {

/// Completeness of the sparse backend: the bins of the partition hold, all
/// together, as many points as the input has points with a cell. Where every
/// point has a cell, that is the length of the input.
pub proof fn law_sparse_completeness(sites: Seq<Site>)
    ensures
        sparse_bins(sites, 0, sites.len() as int).dom().finite(),
        total_points(sparse_bins(sites, 0, sites.len() as int)) + malformed_count(
            sites,
            0,
            sites.len() as int,
        ) == sites.len(),
        (forall|k: int| 0 <= k < sites.len() ==> (#[trigger] sites[k]) is Some) ==> total_points(
            sparse_bins(sites, 0, sites.len() as int),
        ) == sites.len(),
{
    lemma_sparse_bins_total(sites, 0, sites.len() as int);
    if forall|k: int| 0 <= k < sites.len() ==> (#[trigger] sites[k]) is Some {
        lemma_no_malformed(sites, sites.len() as int);
    }
}

/// The bins of the sparse partition are a partition of the input: the point
/// with id `point` is in the bin of its cell, once, and in no other bin.
pub proof fn law_sparse_partition(sites: Seq<Site>, point: int, key: CellKey)
    requires
        0 <= point < sites.len() <= usize::MAX,
        sites[point] == Some(key),
    ensures
        bin_at(sparse_bins(sites, 0, sites.len() as int), key).contains(point as usize),
        bin_at(sparse_bins(sites, 0, sites.len() as int), key).no_duplicates(),
        forall|other: CellKey|
            other != key ==> !(#[trigger] bin_at(
                sparse_bins(sites, 0, sites.len() as int),
                other,
            )).contains(point as usize),
{
    let n = sites.len() as int;
    lemma_ids_complete(sites, Some(key), 0, n, point);
    lemma_ids_sound(sites, Some(key), 0, n);
    assert forall|other: CellKey| other != key implies !(#[trigger] bin_at(
        sparse_bins(sites, 0, n),
        other,
    )).contains(point as usize) by {
        lemma_ids_sound(sites, Some(other), 0, n);
        let bin = bin_at(sparse_bins(sites, 0, n), other);
        if bin.contains(point as usize) {
            let at = choose|at: int| 0 <= at < bin.len() && bin[at] == point as usize;
            assert(ids_in_cell(sites, other, 0, n)[at] == point as usize);
        }
    }
}

/// The dense partition of a range holds no more points than the range has
/// points with a cell inside the grid.
pub proof fn lemma_dense_total_bound(sites: Seq<Site>, grid: Grid, capacity: int, lo: int, hi: int)
    requires
        grid.wf(),
        capacity >= 0,
        0 <= lo <= hi <= sites.len(),
    ensures
        slots_total(dense_slots(sites, grid, capacity, lo, hi)) + malformed_count(sites, lo, hi)
            + outside_count(sites, grid, lo, hi) <= hi - lo,
    decreases hi - lo,
{
    if hi == lo {
        let start = dense_slots(sites, grid, capacity, lo, lo);
        assert forall|slot: int| 0 <= slot < start.len() implies (#[trigger] start[slot]).len()
            == 0 by {}
        crate::slots::lemma_slots_total_empty(start);
    } else {
        lemma_dense_total_bound(sites, grid, capacity, lo, hi - 1);
        lemma_dense_slots_step(sites, grid, capacity, lo, hi - 1);
        grid.lemma_slots();
        let before = dense_slots(sites, grid, capacity, lo, hi - 1);
        match sites[hi - 1] {
            Some(key) => {
                if grid.contains(key) && before[grid.slot_of(key)].len() < capacity {
                    lemma_slots_total_update(
                        before,
                        grid.slot_of(key),
                        before[grid.slot_of(key)].push((hi - 1) as usize),
                    );
                }
            },
            None => {},
        }
    }
}

/// Completeness of the dense backend with accounting: every point of the
/// input is placed in a bin, dropped at a full bin, without a cell, or in a
/// cell outside the grid, and is counted once. Where every point has a cell
/// inside the grid, the placed and the dropped points are the whole input.
pub proof fn law_dense_accounting(sites: Seq<Site>, grid: Grid, capacity: int)
    requires
        grid.wf(),
        capacity >= 0,
    ensures
        dense_dropped(sites, grid, capacity) >= 0,
        slots_total(dense_slots(sites, grid, capacity, 0, sites.len() as int)) + dense_dropped(
            sites,
            grid,
            capacity,
        ) + malformed_count(sites, 0, sites.len() as int) + outside_count(
            sites,
            grid,
            0,
            sites.len() as int,
        ) == sites.len(),
        (forall|k: int|
            0 <= k < sites.len() ==> (#[trigger] sites[k]) is Some && !lies_outside(sites[k], grid))
            ==> slots_total(dense_slots(sites, grid, capacity, 0, sites.len() as int))
            + dense_dropped(sites, grid, capacity) == sites.len(),
{
    let n = sites.len() as int;
    lemma_dense_total_bound(sites, grid, capacity, 0, n);
    if forall|k: int|
        0 <= k < sites.len() ==> (#[trigger] sites[k]) is Some && !lies_outside(sites[k], grid) {
        lemma_no_malformed(sites, n);
        lemma_none_outside(sites, grid, n);
    }
}

/// Where no point has a cell outside the grid, none is counted as such.
pub proof fn lemma_none_outside(sites: Seq<Site>, grid: Grid, upto: int)
    requires
        0 <= upto <= sites.len(),
        forall|k: int| 0 <= k < sites.len() ==> !lies_outside(#[trigger] sites[k], grid),
    ensures
        outside_count(sites, grid, 0, upto) == 0,
    decreases upto,
{
    if upto > 0 {
        lemma_none_outside(sites, grid, upto - 1);
    }
}

/// The boundary rule: a coordinate that lies exactly on the lower edge of
/// bin `k` belongs to bin `k`, never to bin `k - 1`.
pub proof fn law_boundary(k: int, bin_size: int)
    requires
        bin_size > 0,
    ensures
        cell_index(k * bin_size, bin_size) == k,
{
    assert(k * bin_size < (k + 1) * bin_size) by (nonlinear_arith)
        requires
            bin_size > 0,
    ;
    lemma_cell_index_unique(k * bin_size, bin_size, k);
}

/// The partial partitions of the chunks of a plan, sparse backend.
pub open spec fn sparse_partials(sites: Seq<Site>, chunks: Seq<(usize, usize)>) -> Seq<Cells> {
    Seq::new(chunks.len(), |k: int| sparse_bins(sites, chunks[k].0 as int, chunks[k].1 as int))
}

/// The partial partitions of the chunks of a plan, dense backend.
pub open spec fn dense_partials(
    sites: Seq<Site>,
    grid: Grid,
    capacity: int,
    chunks: Seq<(usize, usize)>,
) -> Seq<Slots> {
    Seq::new(
        chunks.len(),
        |k: int| dense_slots(sites, grid, capacity, chunks[k].0 as int, chunks[k].1 as int),
    )
}

/// Invariance of the sparse backend under the division of the input:
/// however the input is cut into contiguous chunks, and so whatever the
/// number of workers, folding the partial partitions gives the partition of
/// the whole input, with the same points in every cell.
pub proof fn law_sparse_chunking(sites: Seq<Site>, chunks: Seq<(usize, usize)>)
    requires
        covers(chunks, sites.len() as int),
    ensures
        fold_cells(Map::empty(), sparse_partials(sites, chunks)) == sparse_bins(
            sites,
            0,
            sites.len() as int,
        ),
{
    let views = sparse_partials(sites, chunks);
    crate::engine::lemma_fold_chunks_sparse(sites, chunks, views, chunks.len() as int);
    assert(views.take(chunks.len() as int) =~= views);
}

/// Invariance of the sparse backend under the number of workers: two runs on
/// the same input, with the chunks planned for different numbers of workers,
/// count the same number of points in every cell.
pub proof fn law_sparse_worker_counts(
    sites: Seq<Site>,
    workers: int,
    other_workers: int,
    plan: Seq<(usize, usize)>,
    other_plan: Seq<(usize, usize)>,
    key: CellKey,
)
    requires
        workers >= 1,
        other_workers >= 1,
        is_plan(plan, sites.len() as int, chunk_size(sites.len() as int, workers)),
        is_plan(other_plan, sites.len() as int, chunk_size(sites.len() as int, other_workers)),
    ensures
        bin_at(fold_cells(Map::empty(), sparse_partials(sites, plan)), key).len() == bin_at(
            fold_cells(Map::empty(), sparse_partials(sites, other_plan)),
            key,
        ).len(),
{
    lemma_plan_covers(plan, sites.len() as int, chunk_size(sites.len() as int, workers));
    lemma_plan_covers(
        other_plan,
        sites.len() as int,
        chunk_size(sites.len() as int, other_workers),
    );
    law_sparse_chunking(sites, plan);
    law_sparse_chunking(sites, other_plan);
}

/// Invariance of the dense backend under the division of the input: however
/// the input is cut into contiguous chunks, folding the partial partitions
/// into an empty store gives the partition of the whole input.
pub proof fn law_dense_chunking(
    sites: Seq<Site>,
    grid: Grid,
    capacity: int,
    chunks: Seq<(usize, usize)>,
    upto: int,
)
    requires
        capacity >= 0,
        covers(chunks, sites.len() as int),
        0 <= upto <= chunks.len(),
    ensures
        fold_slots(
            dense_slots(sites, grid, capacity, 0, 0),
            dense_partials(sites, grid, capacity, chunks).take(upto),
            capacity,
        ) == dense_slots(sites, grid, capacity, 0, crate::engine::reached(chunks, upto)),
    decreases upto,
{
    let views = dense_partials(sites, grid, capacity, chunks);
    if upto > 0 {
        law_dense_chunking(sites, grid, capacity, chunks, upto - 1);
        assert(views.take(upto).drop_last() =~= views.take(upto - 1));
        let lo = chunks[upto - 1].0 as int;
        let hi = chunks[upto - 1].1 as int;
        lemma_dense_slots_split(sites, grid, capacity, 0, lo, hi);
    }
}

/// Invariance of the dense backend under the number of workers: two runs on
/// the same input, with the chunks planned for different numbers of workers,
/// count the same number of points in every slot.
pub proof fn law_dense_worker_counts(
    sites: Seq<Site>,
    grid: Grid,
    capacity: int,
    workers: int,
    other_workers: int,
    plan: Seq<(usize, usize)>,
    other_plan: Seq<(usize, usize)>,
    slot: int,
)
    requires
        capacity >= 0,
        workers >= 1,
        other_workers >= 1,
        is_plan(plan, sites.len() as int, chunk_size(sites.len() as int, workers)),
        is_plan(other_plan, sites.len() as int, chunk_size(sites.len() as int, other_workers)),
        0 <= slot < grid.cells(),
    ensures
        fold_slots(
            dense_slots(sites, grid, capacity, 0, 0),
            dense_partials(sites, grid, capacity, plan),
            capacity,
        )[slot].len() == fold_slots(
            dense_slots(sites, grid, capacity, 0, 0),
            dense_partials(sites, grid, capacity, other_plan),
            capacity,
        )[slot].len(),
{
    lemma_plan_covers(plan, sites.len() as int, chunk_size(sites.len() as int, workers));
    lemma_plan_covers(
        other_plan,
        sites.len() as int,
        chunk_size(sites.len() as int, other_workers),
    );
    law_dense_chunking(sites, grid, capacity, plan, plan.len() as int);
    law_dense_chunking(sites, grid, capacity, other_plan, other_plan.len() as int);
    let a = dense_partials(sites, grid, capacity, plan);
    let b = dense_partials(sites, grid, capacity, other_plan);
    assert(a.take(plan.len() as int) =~= a);
    assert(b.take(other_plan.len() as int) =~= b);
}

/// Merging sparse partitions is commutative in what matters: whichever of two
/// partial partitions is merged first, every cell ends with the same points,
/// if not in the same order, and so with the same count.
pub proof fn law_sparse_merge_commutes(a: Cells, b: Cells, key: CellKey)
    ensures
        merge_cells(a, b).dom() == merge_cells(b, a).dom(),
        bin_at(merge_cells(a, b), key).to_multiset() == bin_at(merge_cells(b, a), key).to_multiset(),
        bin_at(merge_cells(a, b), key).len() == bin_at(merge_cells(b, a), key).len(),
{
    vstd::seq_lib::lemma_multiset_commutative(bin_at(a, key), bin_at(b, key));
    vstd::seq_lib::lemma_multiset_commutative(bin_at(b, key), bin_at(a, key));
}

/// Merging sparse partitions is associative: it does not matter how the
/// partial partitions are grouped.
pub proof fn law_sparse_merge_associates(a: Cells, b: Cells, c: Cells)
    ensures
        merge_cells(merge_cells(a, b), c) == merge_cells(a, merge_cells(b, c)),
{
    let left = merge_cells(merge_cells(a, b), c);
    let right = merge_cells(a, merge_cells(b, c));
    assert forall|key: CellKey| left.dom().contains(key) implies #[trigger] left[key]
        == right[key] by {}
}

/// Merging dense partitions is commutative in the counts: whichever of two
/// partial partitions is merged first, every slot ends with as many points,
/// the sum of the two counts or the capacity if that is less.
pub proof fn law_dense_merge_commutes(a: Slots, b: Slots, capacity: int, slot: int)
    requires
        capacity >= 0,
        a.len() == b.len(),
        0 <= slot < a.len(),
    ensures
        merge_slots(a, b, capacity)[slot].len() == merge_slots(b, a, capacity)[slot].len(),
        merge_slots(a, b, capacity)[slot].len() == if a[slot].len() + b[slot].len() <= capacity {
            (a[slot].len() + b[slot].len()) as int
        } else {
            capacity
        },
{
}

/// Merging dense partitions is associative: it does not matter how the
/// partial partitions are grouped.
pub proof fn law_dense_merge_associates(a: Slots, b: Slots, c: Slots, capacity: int)
    requires
        capacity >= 0,
        a.len() == b.len() == c.len(),
    ensures
        merge_slots(merge_slots(a, b, capacity), c, capacity) == merge_slots(
            a,
            merge_slots(b, c, capacity),
            capacity,
        ),
{
    let left = merge_slots(merge_slots(a, b, capacity), c, capacity);
    let right = merge_slots(a, merge_slots(b, c, capacity), capacity);
    assert forall|slot: int| 0 <= slot < a.len() implies left[slot] == right[slot] by {}
}

/// Equivalence of the backends: where no bin of the grid is too small for
/// its cell, the dense partition holds in the slot of every cell inside the
/// grid exactly the points that the sparse partition holds in that cell; and
/// where, besides, no point lies outside the grid, the sparse partition has
/// no other cells.
pub proof fn law_backend_equivalence(sites: Seq<Site>, grid: Grid, capacity: int, key: CellKey)
    requires
        grid.wf(),
        forall|cell: CellKey|
            (#[trigger] ids_in_cell(sites, cell, 0, sites.len() as int)).len() <= capacity,
    ensures
        grid.contains(key) ==> dense_slots(sites, grid, capacity, 0, sites.len() as int)[grid.slot_of(
            key,
        )] == bin_at(sparse_bins(sites, 0, sites.len() as int), key),
        (forall|k: int| 0 <= k < sites.len() ==> !lies_outside(#[trigger] sites[k], grid))
            && !grid.contains(key) ==> bin_at(sparse_bins(sites, 0, sites.len() as int), key).len()
            == 0,
{
    let n = sites.len() as int;
    grid.lemma_slots();
    if (forall|k: int| 0 <= k < sites.len() ==> !lies_outside(#[trigger] sites[k], grid))
        && !grid.contains(key) {
        lemma_cell_unused(sites, grid, key, n);
    }
}

/// A cell outside the grid holds no point of an input that lies inside.
pub proof fn lemma_cell_unused(sites: Seq<Site>, grid: Grid, key: CellKey, upto: int)
    requires
        0 <= upto <= sites.len(),
        !grid.contains(key),
        forall|k: int| 0 <= k < sites.len() ==> !lies_outside(#[trigger] sites[k], grid),
    ensures
        ids_in_cell(sites, key, 0, upto).len() == 0,
    decreases upto,
{
    if upto > 0 {
        lemma_cell_unused(sites, grid, key, upto - 1);
    }
}

/// Every point in a slot of the dense partition belongs there: it is a point
/// of the input whose cell is the cell of the slot, and it is in the slot
/// once.
pub proof fn law_dense_partition(sites: Seq<Site>, grid: Grid, capacity: int, slot: int)
    requires
        grid.wf(),
        capacity >= 0,
        sites.len() <= usize::MAX,
        0 <= slot < grid.cells(),
    ensures
        dense_slots(sites, grid, capacity, 0, sites.len() as int)[slot].len() <= capacity,
        dense_slots(sites, grid, capacity, 0, sites.len() as int)[slot].no_duplicates(),
        forall|at: int|
            0 <= at < dense_slots(sites, grid, capacity, 0, sites.len() as int)[slot].len() ==> {
                let point = #[trigger] dense_slots(
                    sites,
                    grid,
                    capacity,
                    0,
                    sites.len() as int,
                )[slot][at];
                point < sites.len() && sites[point as int] == Some(grid.key_of(slot))
            },
{
    lemma_ids_sound(sites, Some(grid.key_of(slot)), 0, sites.len() as int);
}

/// Merging sparse partitions loses no point and adds none: the merged
/// partition holds as many points as the two together.
pub proof fn law_sparse_merge_keeps_points(a: Cells, b: Cells)
    requires
        a.dom().finite(),
        b.dom().finite(),
    ensures
        merge_cells(a, b).dom().finite(),
        total_points(merge_cells(a, b)) == total_points(a) + total_points(b),
{
    lemma_total_merge(a, b);
}

/// The number of points, in the first `upto` slots, that find no room when
/// `b` is merged into `a`.
pub open spec fn merge_overflow(a: Slots, b: Slots, capacity: int, upto: int) -> nat
    decreases upto,
{
    if upto <= 0 {
        0
    } else if a[upto - 1].len() + b[upto - 1].len() > capacity {
        merge_overflow(a, b, capacity, upto - 1) + (a[upto - 1].len() + b[upto - 1].len()
            - capacity) as nat
    } else {
        merge_overflow(a, b, capacity, upto - 1)
    }
}

/// Merging dense partitions loses no point unseen: the points of the merged
/// partition and those that found no room are as many as the two partitions
/// held together.
pub proof fn law_dense_merge_accounts(a: Slots, b: Slots, capacity: int, upto: int)
    requires
        capacity >= 0,
        a.len() == b.len(),
        0 <= upto <= a.len(),
    ensures
        slots_total(merge_slots(a, b, capacity).take(upto)) + merge_overflow(a, b, capacity, upto)
            == slots_total(a.take(upto)) + slots_total(b.take(upto)),
    decreases upto,
{
    if upto > 0 {
        law_dense_merge_accounts(a, b, capacity, upto - 1);
        lemma_slots_total_prefix(merge_slots(a, b, capacity), upto - 1);
        lemma_slots_total_prefix(a, upto - 1);
        lemma_slots_total_prefix(b, upto - 1);
    }
}

/// The points that the partitions `parts` hold in cell `key`, all together
/// and in no order.
pub open spec fn cell_members(parts: Seq<Cells>, key: CellKey) -> Multiset<usize> {
    parts.fold_left(
        Multiset::empty(),
        |sum: Multiset<usize>, part: Cells| sum.add(bin_at(part, key).to_multiset()),
    )
}

/// A cell of a fold of sparse partitions holds the points that the
/// partitions hold in that cell.
pub proof fn lemma_fold_members(parts: Seq<Cells>, key: CellKey)
    ensures
        bin_at(fold_cells(Map::empty(), parts), key).to_multiset() == cell_members(parts, key),
    decreases parts.len(),
{
    if parts.len() == 0 {
        assert(Seq::<usize>::empty().to_multiset() =~= Multiset::<usize>::empty()) by {
            vstd::seq_lib::to_multiset_len(Seq::<usize>::empty());
        }
    } else {
        lemma_fold_members(parts.drop_last(), key);
        let before = fold_cells(Map::empty(), parts.drop_last());
        vstd::seq_lib::lemma_multiset_commutative(bin_at(before, key), bin_at(parts.last(), key));
    }
}

/// Invariance of the sparse backend under the order of merging: in whatever
/// order the partial partitions are folded into the store, every cell ends
/// with the same points, and so with the same count.
pub proof fn law_sparse_merge_order(parts: Seq<Cells>, reordered: Seq<Cells>, key: CellKey)
    requires
        parts.to_multiset() == reordered.to_multiset(),
    ensures
        bin_at(fold_cells(Map::empty(), parts), key).to_multiset() == bin_at(
            fold_cells(Map::empty(), reordered),
            key,
        ).to_multiset(),
        bin_at(fold_cells(Map::empty(), parts), key).len() == bin_at(
            fold_cells(Map::empty(), reordered),
            key,
        ).len(),
{
    let join = |sum: Multiset<usize>, part: Cells| sum.add(bin_at(part, key).to_multiset());
    assert forall|x: Cells, y: Cells, v: Multiset<usize>| #[trigger]
        join(join(v, x), y) == join(join(v, y), x) by {}
    vstd::seq_lib::lemma_fold_left_permutation(parts, reordered, join, Multiset::empty());
    lemma_fold_members(parts, key);
    lemma_fold_members(reordered, key);
    vstd::seq_lib::to_multiset_len(bin_at(fold_cells(Map::empty(), parts), key));
    vstd::seq_lib::to_multiset_len(bin_at(fold_cells(Map::empty(), reordered), key));
}

/// The number of points that the partitions `parts` hold in slot `slot`, all
/// together.
pub open spec fn slot_arrivals(parts: Seq<Slots>, slot: int) -> nat {
    parts.fold_left(0nat, |sum: nat, part: Slots| sum + part[slot].len())
}

/// A slot of a fold of dense partitions into an empty store holds as many
/// points as the partitions hold in that slot, or as many as fit.
pub proof fn lemma_fold_arrivals(start: Slots, parts: Seq<Slots>, capacity: int, slot: int)
    requires
        capacity >= 0,
        0 <= slot < start.len(),
        start[slot].len() == 0,
    ensures
        fold_slots(start, parts, capacity).len() == start.len(),
        fold_slots(start, parts, capacity)[slot].len() == if slot_arrivals(parts, slot)
            <= capacity {
            slot_arrivals(parts, slot) as int
        } else {
            capacity
        },
    decreases parts.len(),
{
    if parts.len() > 0 {
        lemma_fold_arrivals(start, parts.drop_last(), capacity, slot);
    }
}

/// Invariance of the dense backend under the order of merging: in whatever
/// order the partial partitions are folded into an empty store, every slot
/// ends with the same number of points.
pub proof fn law_dense_merge_order(
    start: Slots,
    parts: Seq<Slots>,
    reordered: Seq<Slots>,
    capacity: int,
    slot: int,
)
    requires
        capacity >= 0,
        0 <= slot < start.len(),
        start[slot].len() == 0,
        parts.to_multiset() == reordered.to_multiset(),
    ensures
        fold_slots(start, parts, capacity)[slot].len() == fold_slots(
            start,
            reordered,
            capacity,
        )[slot].len(),
{
    let join = |sum: nat, part: Slots| sum + part[slot].len();
    assert forall|x: Slots, y: Slots, v: nat| #[trigger]
        join(join(v, x), y) == join(join(v, y), x) by {}
    vstd::seq_lib::lemma_fold_left_permutation(parts, reordered, join, 0nat);
    lemma_fold_arrivals(start, parts, capacity, slot);
    lemma_fold_arrivals(start, reordered, capacity, slot);
}

/// The point that a local error names is the first of its chunk without a
/// cell: it lies in the chunk, it has no cell, and every point of the chunk
/// before it has one. Where there is no such point, every point of the chunk
/// has a cell.
pub proof fn law_first_malformed(sites: Seq<Site>, lo: int, hi: int)
    ensures
        match first_malformed(sites, lo, hi) {
            Some(point) => {
                &&& lo <= point < hi
                &&& sites[point] is None
                &&& forall|k: int| lo <= k < point ==> (#[trigger] sites[k]) is Some
            },
            None => forall|k: int| lo <= k < hi ==> (#[trigger] sites[k]) is Some,
        },
    decreases hi - lo,
{
    if hi > lo {
        law_first_malformed(sites, lo, hi - 1);
    }
}

/// The point that a domain error names is the first of the input whose cell
/// lies outside the grid: it has such a cell, and no point before it has.
/// Where there is no such point, no point lies outside the grid.
pub proof fn law_first_outside(sites: Seq<Site>, grid: Grid, lo: int, hi: int)
    ensures
        match first_outside(sites, grid, lo, hi) {
            Some(point) => {
                &&& lo <= point < hi
                &&& lies_outside(sites[point], grid)
                &&& forall|k: int| lo <= k < point ==> !lies_outside(#[trigger] sites[k], grid)
            },
            None => forall|k: int| lo <= k < hi ==> !lies_outside(#[trigger] sites[k], grid),
        },
    decreases hi - lo,
{
    if hi > lo {
        law_first_outside(sites, grid, lo, hi - 1);
    }
}

} // verus!
