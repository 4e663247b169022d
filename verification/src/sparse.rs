//! The sparse bin store: an index from cell key to a growable bin of point
//! ids, for domains that are unbounded or not known in advance.

use vstd::prelude::*;
use crate::cells::{
    bin_at, is_busiest, lemma_total_insert, lemma_total_merge, merge_cells,
    no_empty_bins, ranks_first, total_points, with_point, CellKey, Cells,
};
use crate::table::{
    lists_entries, lists_keys, table_bin_mut, table_cells, table_get, table_into_bins, table_keys,
    table_new, CellTable,
};

verus! {

/// A partition held cell by cell in a hash index. Only occupied cells have an
/// entry, and a bin never overflows.
pub struct SparseStore {
    table: CellTable,
    total: usize,
}

impl SparseStore {
    /// The bins of the store, keyed by cell.
    pub closed spec fn view(&self) -> Cells {
        table_cells(self.table)
    }

    /// The store lists finitely many cells, none of them empty, and its
    /// running total counts the points in them.
    pub closed spec fn wf(&self) -> bool {
        &&& self@.dom().finite()
        &&& no_empty_bins(self@)
        &&& self.total == total_points(self@)
    }

    /// A well-formed store lists finitely many cells, none of them empty.
    pub proof fn lemma_finite(&self)
        requires
            self.wf(),
        ensures
            self@.dom().finite(),
            no_empty_bins(self@),
    {
    }

    /// An empty store.
    pub fn new() -> (store: SparseStore)
        ensures
            store.wf(),
            store@ == (Map::<CellKey, Seq<usize>>::empty()),
    {
        SparseStore { table: table_new(), total: 0 }
    }

    /// Appends `point` to the bin of cell `key`, creating the bin if the cell
    /// was empty.
    pub fn insert(&mut self, key: CellKey, point: usize)
        requires
            old(self).wf(),
            total_points(old(self)@) < usize::MAX,
        ensures
            final(self).wf(),
            final(self)@ == with_point(old(self)@, key, point),
            total_points(final(self)@) == total_points(old(self)@) + 1,
    {
        let bin = table_bin_mut(&mut self.table, key);
        bin.push(point);
        self.total = self.total + 1;
        proof {
            lemma_total_insert(old(self)@, key, bin_at(old(self)@, key).push(point));
        }
    }

    /// Folds `partial` into this store: every bin of `partial` is appended to
    /// the bin of the same cell here, which is created if absent.
    pub fn merge_from(&mut self, partial: SparseStore)
        requires
            old(self).wf(),
            partial.wf(),
            total_points(old(self)@) + total_points(partial@) <= usize::MAX,
        ensures
            final(self).wf(),
            final(self)@ == merge_cells(old(self)@, partial@),
            total_points(final(self)@) == total_points(old(self)@) + total_points(partial@),
    {
        let ghost before = self@;
        let ghost added = partial@;
        self.total = self.total + partial.total;
        let mut listing = table_into_bins(partial.table);
        let ghost full = listing@;
        let ghost mut done: Cells = Map::empty();
        while listing.len() > 0
            invariant
                lists_entries(full, added),
                listing@ == full.take(listing.len() as int),
                listing.len() <= full.len(),
                no_empty_bins(added),
                self@ == merge_cells(before, done),
                forall|key: CellKey| #[trigger]
                    done.dom().contains(key) ==> added.dom().contains(key) && done[key]
                        == added[key],
                forall|a: int|
                    0 <= a < full.len() ==> (done.dom().contains((#[trigger] full[a]).0) <==> a
                        >= listing.len()),
                self.total == old(self).total + partial.total,
            decreases listing.len(),
        {
            let entry = listing.pop().unwrap();
            let key = entry.0;
            let mut bin = entry.1;
            let target = table_bin_mut(&mut self.table, key);
            target.append(&mut bin);
            proof {
                done = done.insert(key, added[key]);
            }
        }
        proof {
            assert(done =~= added);
            lemma_total_merge(before, added);
        }
    }

    /// The points of cell `key`, in the order in which they were stored.
    pub fn bin(&self, key: CellKey) -> (points: Vec<usize>)
        ensures
            points@ == bin_at(self@, key),
    {
        match table_get(&self.table, key) {
            Some(found) => found.clone(),
            None => Vec::new(),
        }
    }

    /// The number of points in cell `key`.
    pub fn count(&self, key: CellKey) -> (count: usize)
        ensures
            count == bin_at(self@, key).len(),
    {
        match table_get(&self.table, key) {
            Some(found) => found.len(),
            None => 0,
        }
    }

    /// The number of points in all cells together.
    pub fn total(&self) -> (total: usize)
        requires
            self.wf(),
        ensures
            total == total_points(self@),
    {
        self.total
    }

    /// The occupied cells, each once, in no particular order.
    pub fn cells(&self) -> (keys: Vec<CellKey>)
        ensures
            lists_keys(keys@, self@),
    {
        table_keys(&self.table)
    }

    /// The cell of maximum occupancy with its number of points, or `None`
    /// for an empty store. Of several cells that hold as many, the answer is
    /// the first in row-major order.
    pub fn busiest(&self) -> (answer: Option<(CellKey, usize)>)
        ensures
            is_busiest(self@, answer),
    {
        let keys = self.cells();
        let mut answer: Option<(CellKey, usize)> = None;
        let mut at: usize = 0;
        while at < keys.len()
            invariant
                at <= keys.len(),
                lists_keys(keys@, self@),
                at == 0 ==> answer is None,
                at > 0 ==> answer is Some,
                answer matches Some((key, count)) ==> {
                    &&& self@.dom().contains(key)
                    &&& self@[key].len() == count
                    &&& forall|k: int|
                        0 <= k < at ==> ranks_first(
                            key,
                            count as int,
                            #[trigger] keys[k],
                            self@[keys[k]].len() as int,
                        )
                },
            decreases keys.len() - at,
        {
            let key = keys[at];
            assert(keys@.contains(key));
            let count = self.count(key);
            let better = match answer {
                Some((best, most)) => count > most || (count == most && (key.1 < best.1 || (key.1
                    == best.1 && key.0 <= best.0))),
                None => true,
            };
            if better {
                answer = Some((key, count));
            }
            at += 1;
        }
        proof {
            match answer {
                Some((key, count)) => {
                    assert forall|other: CellKey| #[trigger]
                        self@.dom().contains(other) implies ranks_first(
                        key,
                        count as int,
                        other,
                        self@[other].len() as int,
                    ) by {
                        assert(keys@.contains(other));
                        let k = choose|k: int| 0 <= k < keys@.len() && keys@[k] == other;
                        assert(ranks_first(key, count as int, keys[k], self@[keys[k]].len() as int));
                    }
                },
                None => {
                    assert forall|other: CellKey| !self@.dom().contains(other) by {
                        if self@.dom().contains(other) {
                            assert(keys@.contains(other));
                        }
                    }
                },
            }
        }
        answer
    }
}

} // verus!
