//! The merge coordinator: the partial partitions of the workers are folded,
//! one after the other, into the one store that is the result of the run.

use vstd::prelude::*;
use crate::cells::{lemma_total_merge, merge_cells, total_points, Cells};
use crate::config::BinError;
use crate::dense::DenseStore;
use crate::slots::{merge_slots, Slots};
use crate::sparse::SparseStore;

verus! {

/// The sparse partition that results from merging `parts` into `start`, one
/// after the other.
pub open spec fn fold_cells(start: Cells, parts: Seq<Cells>) -> Cells
    decreases parts.len(),
{
    if parts.len() == 0 {
        start
    } else {
        merge_cells(fold_cells(start, parts.drop_last()), parts.last())
    }
}

/// The dense partition that results from merging `parts` into `start`, one
/// after the other.
pub open spec fn fold_slots(start: Slots, parts: Seq<Slots>, capacity: int) -> Slots
    decreases parts.len(),
{
    if parts.len() == 0 {
        start
    } else {
        merge_slots(fold_slots(start, parts.drop_last(), capacity), parts.last(), capacity)
    }
}

/// The partitions held by a sequence of sparse stores.
pub open spec fn sparse_views(partials: Seq<SparseStore>) -> Seq<Cells> {
    Seq::new(partials.len(), |k: int| partials[k]@)
}

/// The partitions held by a sequence of dense stores.
pub open spec fn dense_views(partials: Seq<DenseStore>) -> Seq<Slots> {
    Seq::new(partials.len(), |k: int| partials[k]@)
}

/// The number of points that a sequence of dense stores has placed or
/// dropped.
pub open spec fn seen_by(partials: Seq<DenseStore>) -> nat
    decreases partials.len(),
{
    if partials.len() == 0 {
        0
    } else {
        seen_by(partials.drop_last()) + partials.last().spec_placed() as nat
            + partials.last().spec_dropped() as nat
    }
}

/// Every one of the partitions lists finitely many cells.
pub open spec fn all_finite(parts: Seq<Cells>) -> bool {
    forall|k: int| 0 <= k < parts.len() ==> (#[trigger] parts[k]).dom().finite()
}

/// A fold of finite partitions is finite and holds the points of them all.
pub proof fn lemma_fold_cells_total(start: Cells, parts: Seq<Cells>)
    requires
        start.dom().finite(),
        all_finite(parts),
    ensures
        fold_cells(start, parts).dom().finite(),
        parts.len() > 0 ==> total_points(fold_cells(start, parts)) == total_points(
            fold_cells(start, parts.drop_last()),
        ) + total_points(parts.last()),
    decreases parts.len(),
{
    if parts.len() > 0 {
        lemma_fold_cells_total(start, parts.drop_last());
        lemma_total_merge(fold_cells(start, parts.drop_last()), parts.last());
    }
}

/// A fold of the first `upto` partitions holds no more points than the fold
/// of them all.
pub proof fn lemma_fold_cells_prefix(start: Cells, parts: Seq<Cells>, upto: int)
    requires
        start.dom().finite(),
        all_finite(parts),
        0 <= upto <= parts.len(),
    ensures
        fold_cells(start, parts.take(upto)).dom().finite(),
        total_points(fold_cells(start, parts.take(upto))) <= total_points(
            fold_cells(start, parts),
        ),
    decreases parts.len(),
{
    if upto == parts.len() {
        assert(parts.take(upto) =~= parts);
        lemma_fold_cells_total(start, parts);
    } else {
        lemma_fold_cells_prefix(start, parts.drop_last(), upto);
        assert(parts.drop_last().take(upto) =~= parts.take(upto));
        lemma_fold_cells_total(start, parts);
    }
}

/// The first `upto + 1` stores have seen what the first `upto` have seen and
/// what the next has seen, and no more than all of them.
pub proof fn lemma_seen_by_prefix(partials: Seq<DenseStore>, upto: int)
    requires
        0 <= upto < partials.len(),
    ensures
        seen_by(partials.take(upto + 1)) == seen_by(partials.take(upto))
            + partials[upto].spec_placed() + partials[upto].spec_dropped(),
        seen_by(partials.take(upto + 1)) <= seen_by(partials),
    decreases partials.len() - upto,
{
    assert(partials.take(upto + 1).drop_last() =~= partials.take(upto));
    if upto + 1 < partials.len() {
        lemma_seen_by_prefix(partials, upto + 1);
    }
}

/// Folds the partial partitions of all workers into `store`, in the order in
/// which they are listed.
pub fn merge_sparse(store: &mut SparseStore, partials: Vec<SparseStore>)
    requires
        old(store).wf(),
        forall|k: int| 0 <= k < partials.len() ==> (#[trigger] partials[k]).wf(),
        total_points(fold_cells(old(store)@, sparse_views(partials@))) <= usize::MAX,
    ensures
        final(store).wf(),
        final(store)@ == fold_cells(old(store)@, sparse_views(partials@)),
{
    let ghost start = store@;
    let ghost all = partials@;
    let ghost views = sparse_views(all);
    proof {
        store.lemma_finite();
        assert forall|k: int| 0 <= k < views.len() implies (#[trigger] views[k]).dom().finite() by {
            all[k].lemma_finite();
        }
    }
    for partial in it: partials
        invariant
            it.seq() == all,
            views == sparse_views(all),
            start.dom().finite(),
            all_finite(views),
            forall|k: int| 0 <= k < all.len() ==> (#[trigger] all[k]).wf(),
            total_points(fold_cells(start, views)) <= usize::MAX,
            store.wf(),
            store@ == fold_cells(start, views.take(it.index() as int)),
    {
        let ghost k = it.index() as int;
        proof {
            assert(views.take(k + 1).drop_last() =~= views.take(k));
            lemma_fold_cells_prefix(start, views, k + 1);
            lemma_fold_cells_total(start, views.take(k + 1));
        }
        store.merge_from(partial);
    }
    proof {
        assert(views.take(all.len() as int) =~= views);
    }
}

/// Folds the partial partitions of all workers into `store`, in the order in
/// which they are listed. What the partial stores placed or dropped, the
/// store has placed or dropped afterwards.
pub fn merge_dense(store: &mut DenseStore, partials: &Vec<DenseStore>)
    requires
        old(store).wf(),
        forall|k: int|
            0 <= k < partials.len() ==> (#[trigger] partials[k]).wf() && partials[k].spec_grid()
                == old(store).spec_grid() && partials[k].spec_capacity() == old(
                store,
            ).spec_capacity(),
        old(store).spec_placed() + old(store).spec_dropped() + seen_by(partials@) <= usize::MAX,
    ensures
        final(store).wf(),
        final(store).spec_grid() == old(store).spec_grid(),
        final(store).spec_capacity() == old(store).spec_capacity(),
        final(store)@ == fold_slots(
            old(store)@,
            dense_views(partials@),
            old(store).spec_capacity() as int,
        ),
        final(store).spec_placed() + final(store).spec_dropped() == old(store).spec_placed() + old(
            store,
        ).spec_dropped() + seen_by(partials@),
{
    let ghost start = store@;
    let ghost views = dense_views(partials@);
    let mut at: usize = 0;
    while at < partials.len()
        invariant
            at <= partials.len(),
            views == dense_views(partials@),
            start == old(store)@,
            store.wf(),
            store.spec_grid() == old(store).spec_grid(),
            store.spec_capacity() == old(store).spec_capacity(),
            forall|k: int|
                0 <= k < partials.len() ==> (#[trigger] partials[k]).wf()
                    && partials[k].spec_grid() == old(store).spec_grid()
                    && partials[k].spec_capacity() == old(store).spec_capacity(),
            old(store).spec_placed() + old(store).spec_dropped() + seen_by(partials@)
                <= usize::MAX,
            store@ == fold_slots(start, views.take(at as int), store.spec_capacity() as int),
            store.spec_placed() + store.spec_dropped() == old(store).spec_placed() + old(
                store,
            ).spec_dropped() + seen_by(partials@.take(at as int)),
        decreases partials.len() - at,
    {
        proof {
            lemma_seen_by_prefix(partials@, at as int);
            assert(views.take(at + 1).drop_last() =~= views.take(at as int));
        }
        store.merge_from(&partials[at]);
        at += 1;
    }
    proof {
        assert(views.take(at as int) =~= views);
        assert(partials@.take(at as int) =~= partials@);
    }
}

/// The number of the first worker that delivered nothing, if there is one.
pub open spec fn first_failure<T>(outcomes: Seq<Option<T>>, upto: int) -> Option<int>
    decreases upto,
{
    if upto <= 0 {
        None
    } else if first_failure(outcomes, upto - 1) is Some {
        first_failure(outcomes, upto - 1)
    } else if outcomes[upto - 1] is None {
        Some(upto - 1)
    } else {
        None
    }
}

/// Collects what the workers delivered, `None` standing for a worker that
/// failed. If every worker delivered, the results are handed on in worker
/// order; if one did not, the run ends in `WorkerFailure` with the number of
/// the first such worker, and no partial result is handed on.
pub fn gather<T>(outcomes: Vec<Option<T>>) -> (gathered: Result<Vec<T>, BinError>)
    ensures
        match gathered {
            Ok(parts) => {
                &&& first_failure(outcomes@, outcomes.len() as int) is None
                &&& parts.len() == outcomes.len()
                &&& forall|k: int| 0 <= k < parts.len() ==> outcomes[k] == Some(#[trigger] parts[k])
            },
            Err(error) => {
                &&& first_failure(outcomes@, outcomes.len() as int) is Some
                &&& error == BinError::WorkerFailure {
                    worker: first_failure(outcomes@, outcomes.len() as int)->0 as usize,
                }
            },
        },
{
    let ghost all = outcomes@;
    let ghost mut failed: Option<int> = None;
    let mut error: Option<BinError> = None;
    let mut parts: Vec<T> = Vec::new();
    let mut worker: usize = 0;
    for outcome in it: outcomes
        invariant
            it.seq() == all,
            all.len() <= usize::MAX,
            worker == it.index(),
            failed == first_failure(all, it.index() as int),
            match failed {
                Some(first) => error == Some(BinError::WorkerFailure { worker: first as usize }),
                None => {
                    &&& error is None
                    &&& parts.len() == it.index()
                    &&& forall|k: int| 0 <= k < parts.len() ==> all[k] == Some(#[trigger] parts[k])
                },
            },
    {
        match outcome {
            Some(part) => {
                if error.is_none() {
                    parts.push(part);
                }
            },
            None => {
                if error.is_none() {
                    error = Some(BinError::WorkerFailure { worker });
                    proof {
                        failed = Some(worker as int);
                    }
                }
            },
        }
        worker += 1;
    }
    match error {
        Some(error) => Err(error),
        None => Ok(parts),
    }
}

} // verus!
