//! The dense bin store: one bin of fixed capacity for every cell of a bounded
//! grid, allocated once and addressed by slot.

use vstd::prelude::*;
use crate::cells::CellKey;
use crate::config::{BinError, ConfigError};
use crate::geometry::Grid;
use crate::slots::{
    capped, is_fullest, lemma_slots_total_empty, lemma_slots_total_prefix, lemma_slots_total_update,
    merge_slots, slot_at, slots_total, Slots,
};

verus! {

/// A buffer of fixed capacity with an occupancy count. Only the first
/// `count` entries of the buffer are points of the bin.
pub struct Bin {
    particles: Vec<usize>,
    count: usize,
}

impl Bin {
    /// The points of the bin, in the order in which they arrived.
    pub closed spec fn view(&self) -> Seq<usize> {
        self.particles@.take(self.count as int)
    }

    /// The occupancy count does not exceed the buffer.
    pub closed spec fn wf(&self) -> bool {
        self.count <= self.particles.len()
    }

    /// The number of points that the bin can hold.
    pub closed spec fn spec_capacity(&self) -> usize {
        self.particles.len()
    }

    /// A bin is never fuller than its capacity.
    pub proof fn lemma_bounded(&self)
        requires
            self.wf(),
        ensures
            self@.len() <= self.spec_capacity(),
    {
    }

    /// An empty bin with room for `capacity` points.
    pub fn new(capacity: usize) -> (bin: Bin)
        ensures
            bin.wf(),
            bin@ == Seq::<usize>::empty(),
            bin.spec_capacity() == capacity,
    {
        Bin { particles: vec![0usize; capacity], count: 0 }
    }

    /// Stores `point` in the next free entry and reports `true`; a full bin
    /// is left as it is, and the answer is `false`.
    pub fn add_particle(&mut self, point: usize) -> (placed: bool)
        requires
            old(self).wf(),
        ensures
            final(self).wf(),
            final(self).spec_capacity() == old(self).spec_capacity(),
            placed == (old(self)@.len() < old(self).spec_capacity()),
            final(self)@ == if placed {
                old(self)@.push(point)
            } else {
                old(self)@
            },
    {
        if self.count < self.particles.len() {
            self.particles[self.count] = point;
            self.count += 1;
            true
        } else {
            false
        }
    }

    /// The number of points in the bin.
    pub fn len(&self) -> (count: usize)
        requires
            self.wf(),
        ensures
            count == self@.len(),
    {
        self.count
    }

    /// The number of points that the bin can hold.
    #[verifier::when_used_as_spec(spec_capacity)]
    pub fn capacity(&self) -> (capacity: usize)
        ensures
            capacity == self.spec_capacity(),
    {
        self.particles.len()
    }

    /// A copy of the points of the bin.
    pub fn points(&self) -> (points: Vec<usize>)
        requires
            self.wf(),
        ensures
            points@ == self@,
    {
        let mut points: Vec<usize> = Vec::new();
        let mut at: usize = 0;
        while at < self.count
            invariant
                self.wf(),
                at <= self.count,
                points@ == self@.take(at as int),
            decreases self.count - at,
        {
            points.push(self.particles[at]);
            at += 1;
        }
        points
    }

    /// Appends the points of `other` as far as there is room, and returns how
    /// many of them were taken.
    pub fn append_from(&mut self, other: &Bin) -> (taken: usize)
        requires
            old(self).wf(),
            other.wf(),
        ensures
            final(self).wf(),
            final(self).spec_capacity() == old(self).spec_capacity(),
            final(self)@ == capped(old(self)@ + other@, old(self).spec_capacity() as int),
            taken == final(self)@.len() - old(self)@.len(),
            taken <= other@.len(),
    {
        let mut taken: usize = 0;
        while taken < other.count && self.count < self.particles.len()
            invariant
                self.wf(),
                other.wf(),
                self.spec_capacity() == old(self).spec_capacity(),
                taken <= other.count,
                self.count == old(self).count + taken,
                self@ == old(self)@ + other@.take(taken as int),
            decreases other.count - taken,
        {
            let ghost previous = self@;
            let point = other.particles[taken];
            self.particles[self.count] = point;
            self.count += 1;
            taken += 1;
            assert(self@ =~= previous.push(point));
        }
        taken
    }
}

/// A partition held in one bin per cell of a grid. A point that arrives at a
/// full bin is dropped, and the store counts the points it placed and the
/// points it dropped.
pub struct DenseStore {
    grid: Grid,
    capacity: usize,
    bins: Vec<Bin>,
    placed: usize,
    dropped: usize,
}

impl DenseStore {
    /// The bins of the store, by slot.
    pub closed spec fn view(&self) -> Slots {
        Seq::new(self.bins.len() as nat, |slot: int| self.bins[slot]@)
    }

    /// The grid whose cells the store has bins for.
    pub closed spec fn spec_grid(&self) -> Grid {
        self.grid
    }

    /// The capacity of each bin.
    pub closed spec fn spec_capacity(&self) -> usize {
        self.capacity
    }

    /// The number of points that found room.
    pub closed spec fn spec_placed(&self) -> usize {
        self.placed
    }

    /// The number of points that arrived at a full bin.
    pub closed spec fn spec_dropped(&self) -> usize {
        self.dropped
    }

    /// There is one bin of the store's capacity for every cell of its grid,
    /// and the count of placed points is the number of points in the bins.
    pub closed spec fn wf(&self) -> bool {
        &&& self.grid.wf()
        &&& self.capacity > 0
        &&& self.bins.len() == self.grid.cells()
        &&& forall|slot: int|
            0 <= slot < self.bins.len() ==> (#[trigger] self.bins[slot]).wf()
                && self.bins[slot].spec_capacity() == self.capacity
        &&& self.placed == slots_total(self@)
    }

    /// What well-formedness says of the view.
    pub proof fn lemma_shape(&self)
        requires
            self.wf(),
        ensures
            self.spec_grid().wf(),
            self.spec_capacity() > 0,
            self@.len() == self.spec_grid().cells(),
            forall|slot: int|
                0 <= slot < self@.len() ==> (#[trigger] self@[slot]).len() <= self.spec_capacity(),
            self.spec_placed() == slots_total(self@),
    {
        assert forall|slot: int| 0 <= slot < self@.len() implies (#[trigger] self@[slot]).len()
            <= self.spec_capacity() by {
            self.bins[slot].lemma_bounded();
        }
    }

    /// An empty store for a grid of `grid_width` by `grid_height` cells with
    /// bins of `bin_capacity` points. The grid is refused as `Grid::new`
    /// refuses it, and a capacity of zero as `BinCapacity`.
    pub fn new(grid_width: usize, grid_height: usize, bin_capacity: usize) -> (made: Result<
        DenseStore,
        BinError,
    >)
        ensures
            match made {
                Ok(store) => {
                    &&& store.wf()
                    &&& store.spec_grid() == (Grid { width: grid_width, height: grid_height })
                    &&& store.spec_capacity() == bin_capacity
                    &&& store.spec_placed() == 0
                    &&& store.spec_dropped() == 0
                    &&& forall|slot: int|
                        0 <= slot < store@.len() ==> (#[trigger] store@[slot]).len() == 0
                },
                Err(error) => error == config_error(grid_width, grid_height, bin_capacity)->0,
            },
            made is Ok <==> config_error(grid_width, grid_height, bin_capacity) is None,
    {
        let grid = match Grid::new(grid_width, grid_height) {
            Ok(grid) => grid,
            Err(error) => {
                return Err(error);
            },
        };
        if bin_capacity == 0 {
            return Err(BinError::Configuration(ConfigError::BinCapacity));
        }
        Ok(DenseStore::empty(grid, bin_capacity))
    }

    /// An empty store for a well-formed grid.
    pub fn empty(grid: Grid, bin_capacity: usize) -> (store: DenseStore)
        requires
            grid.wf(),
            bin_capacity > 0,
        ensures
            store.wf(),
            store.spec_grid() == grid,
            store.spec_capacity() == bin_capacity,
            store.spec_placed() == 0,
            store.spec_dropped() == 0,
            forall|slot: int| 0 <= slot < store@.len() ==> (#[trigger] store@[slot]).len() == 0,
    {
        let cells = grid.cell_count();
        let mut bins: Vec<Bin> = Vec::new();
        while bins.len() < cells
            invariant
                bins.len() <= cells,
                forall|slot: int|
                    0 <= slot < bins.len() ==> (#[trigger] bins[slot]).wf()
                        && bins[slot].spec_capacity() == bin_capacity && bins[slot]@.len() == 0,
            decreases cells - bins.len(),
        {
            bins.push(Bin::new(bin_capacity));
        }
        let store = DenseStore { grid, capacity: bin_capacity, bins, placed: 0, dropped: 0 };
        proof {
            lemma_slots_total_empty(store@);
        }
        store
    }

    /// Takes the store apart into its bins, one per slot.
    pub fn into_bins(self) -> (bins: Vec<Bin>)
        requires
            self.wf(),
        ensures
            bin_views(bins@) == self@,
            forall|slot: int|
                0 <= slot < bins.len() ==> (#[trigger] bins[slot]).wf()
                    && bins[slot].spec_capacity() == self.spec_capacity(),
    {
        self.bins
    }

    /// Puts a store together from one bin per slot, as they are left when
    /// every bin has been filled under a lock of its own, and from the number
    /// of points that were dropped on the way. The answer is `None` if the
    /// bins are not those of the grid, if one of them has another capacity,
    /// or if there are more points than can be counted.
    pub fn from_bins(grid: Grid, bin_capacity: usize, bins: Vec<Bin>, dropped: usize) -> (made:
        Option<DenseStore>)
        requires
            grid.wf(),
            bin_capacity > 0,
            forall|slot: int| 0 <= slot < bins.len() ==> (#[trigger] bins[slot]).wf(),
        ensures
            made is Some <==> {
                &&& bins.len() == grid.cells()
                &&& forall|slot: int|
                    0 <= slot < bins.len() ==> (#[trigger] bins[slot]).spec_capacity()
                        == bin_capacity
                &&& slots_total(bin_views(bins@)) + dropped <= usize::MAX
            },
            made matches Some(store) ==> {
                &&& store.wf()
                &&& store.spec_grid() == grid
                &&& store.spec_capacity() == bin_capacity
                &&& store@ == bin_views(bins@)
                &&& store.spec_placed() == slots_total(bin_views(bins@))
                &&& store.spec_dropped() == dropped
            },
    {
        if bins.len() != grid.cell_count() {
            return None;
        }
        let ghost views = bin_views(bins@);
        let mut placed: usize = 0;
        let mut slot: usize = 0;
        while slot < bins.len()
            invariant
                slot <= bins.len(),
                views == bin_views(bins@),
                forall|s: int| 0 <= s < bins.len() ==> (#[trigger] bins[s]).wf(),
                forall|s: int| 0 <= s < slot ==> (#[trigger] bins[s]).spec_capacity() == bin_capacity,
                placed == slots_total(views.take(slot as int)),
                placed + dropped <= usize::MAX,
            decreases bins.len() - slot,
        {
            proof {
                lemma_slots_total_prefix(views, slot as int);
            }
            if bins[slot].capacity() != bin_capacity {
                return None;
            }
            let count = bins[slot].len();
            if count > usize::MAX - dropped - placed {
                return None;
            }
            placed = placed + count;
            slot += 1;
        }
        assert(views.take(slot as int) =~= views);
        let store = DenseStore { grid, capacity: bin_capacity, bins, placed, dropped };
        Some(store)
    }

    /// The grid whose cells the store has bins for.
    #[verifier::when_used_as_spec(spec_grid)]
    pub fn grid(&self) -> (grid: Grid)
        ensures
            grid == self.spec_grid(),
    {
        self.grid
    }

    /// The capacity of each bin.
    #[verifier::when_used_as_spec(spec_capacity)]
    pub fn capacity(&self) -> (capacity: usize)
        ensures
            capacity == self.spec_capacity(),
    {
        self.capacity
    }

    /// The number of points that found room.
    #[verifier::when_used_as_spec(spec_placed)]
    pub fn placed(&self) -> (placed: usize)
        ensures
            placed == self.spec_placed(),
    {
        self.placed
    }

    /// The number of points that arrived at a full bin.
    #[verifier::when_used_as_spec(spec_dropped)]
    pub fn dropped(&self) -> (dropped: usize)
        ensures
            dropped == self.spec_dropped(),
    {
        self.dropped
    }

    /// Stores `point` in the bin of slot `index`. `Ok(true)`: the point was
    /// placed. `Ok(false)`: the bin was full, and the point was dropped and
    /// counted. `OutOfDomain`: the grid has no such slot, and nothing changed.
    pub fn insert(&mut self, index: usize, point: usize) -> (outcome: Result<bool, BinError>)
        requires
            old(self).wf(),
            old(self).spec_placed() + old(self).spec_dropped() < usize::MAX,
        ensures
            final(self).wf(),
            final(self).spec_grid() == old(self).spec_grid(),
            final(self).spec_capacity() == old(self).spec_capacity(),
            outcome == if index >= old(self)@.len() {
                Err::<bool, BinError>(BinError::OutOfDomain { point })
            } else {
                Ok(old(self)@[index as int].len() < old(self).spec_capacity())
            },
            final(self)@ == if outcome == Ok::<bool, BinError>(true) {
                old(self)@.update(index as int, old(self)@[index as int].push(point))
            } else {
                old(self)@
            },
            final(self).spec_placed() == old(self).spec_placed() + if outcome == Ok::<
                bool,
                BinError,
            >(true) {
                1int
            } else {
                0int
            },
            final(self).spec_dropped() == old(self).spec_dropped() + if outcome == Ok::<
                bool,
                BinError,
            >(false) {
                1int
            } else {
                0int
            },
    {
        if index >= self.bins.len() {
            return Err(BinError::OutOfDomain { point });
        }
        let placed = self.bins[index].add_particle(point);
        if placed {
            self.placed = self.placed + 1;
            proof {
                lemma_slots_total_update(old(self)@, index as int, old(self)@[index as int].push(point));
                assert(self@ =~= old(self)@.update(
                    index as int,
                    old(self)@[index as int].push(point),
                ));
            }
        } else {
            self.dropped = self.dropped + 1;
            assert(self@ =~= old(self)@);
        }
        Ok(placed)
    }

    /// Folds `partial` into this store: in every slot the points of `partial`
    /// are appended as far as the capacity reaches. The points that find no
    /// room are counted as dropped, together with those that `partial` had
    /// dropped itself.
    pub fn merge_from(&mut self, partial: &DenseStore)
        requires
            old(self).wf(),
            partial.wf(),
            partial.spec_grid() == old(self).spec_grid(),
            partial.spec_capacity() == old(self).spec_capacity(),
            old(self).spec_placed() + old(self).spec_dropped() + partial.spec_placed()
                + partial.spec_dropped() <= usize::MAX,
        ensures
            final(self).wf(),
            final(self).spec_grid() == old(self).spec_grid(),
            final(self).spec_capacity() == old(self).spec_capacity(),
            final(self)@ == merge_slots(old(self)@, partial@, old(self).spec_capacity() as int),
            final(self).spec_placed() + final(self).spec_dropped() == old(self).spec_placed()
                + old(self).spec_dropped() + partial.spec_placed() + partial.spec_dropped(),
    {
        let ghost before = self@;
        let mut moved: usize = 0;
        let mut seen: usize = 0;
        let mut slot: usize = 0;
        while slot < self.bins.len()
            invariant
                partial.wf(),
                self.grid == old(self).grid,
                self.capacity == old(self).capacity,
                self.placed == old(self).placed,
                self.dropped == old(self).dropped,
                self.grid.wf(),
                self.capacity > 0,
                before == old(self)@,
                self.bins.len() == old(self).bins.len() == partial.bins.len(),
                slot <= self.bins.len(),
                forall|s: int|
                    0 <= s < self.bins.len() ==> (#[trigger] self.bins[s]).wf()
                        && self.bins[s].spec_capacity() == self.capacity,
                forall|s: int|
                    0 <= s < slot ==> (#[trigger] self@[s]) == capped(
                        before[s] + partial@[s],
                        self.capacity as int,
                    ),
                forall|s: int| slot <= s < self.bins.len() ==> (#[trigger] self@[s]) == before[s],
                slots_total(self@) == slots_total(before) + moved,
                seen == slots_total(partial@.take(slot as int)),
                moved <= seen <= partial.placed,
                old(self).placed == slots_total(before),
                partial.placed == slots_total(partial@),
                old(self).placed + old(self).dropped + partial.placed + partial.dropped
                    <= usize::MAX,
            decreases self.bins.len() - slot,
        {
            let ghost previous = self@;
            proof {
                lemma_slots_total_prefix(partial@, slot as int);
            }
            let arrived = partial.bins[slot].len();
            let taken = self.bins[slot].append_from(&partial.bins[slot]);
            proof {
                lemma_slots_total_update(previous, slot as int, self@[slot as int]);
                assert(self@ =~= previous.update(slot as int, self@[slot as int]));
            }
            moved = moved + taken;
            seen = seen + arrived;
            slot += 1;
        }
        self.placed = self.placed + moved;
        self.dropped = self.dropped + partial.dropped + (partial.placed - moved);
    }

    /// The points in the bin of slot `index`; none for a slot that the grid
    /// does not have.
    pub fn bin(&self, index: usize) -> (points: Vec<usize>)
        requires
            self.wf(),
        ensures
            points@ == slot_at(self@, index as int),
    {
        if index < self.bins.len() {
            self.bins[index].points()
        } else {
            Vec::new()
        }
    }

    /// The number of points in the bin of slot `index`.
    pub fn count(&self, index: usize) -> (count: usize)
        requires
            self.wf(),
        ensures
            count == slot_at(self@, index as int).len(),
    {
        if index < self.bins.len() {
            self.bins[index].len()
        } else {
            0
        }
    }

    /// The points in the bin of cell `key`; none for a cell outside the grid.
    pub fn bin_of(&self, key: CellKey) -> (points: Vec<usize>)
        requires
            self.wf(),
        ensures
            points@ == if self.spec_grid().contains(key) {
                self@[self.spec_grid().slot_of(key)]
            } else {
                Seq::empty()
            },
    {
        match self.grid.index_of(key) {
            Some(index) => self.bins[index].points(),
            None => Vec::new(),
        }
    }

    /// The number of points in the bin of cell `key`.
    pub fn count_of(&self, key: CellKey) -> (count: usize)
        requires
            self.wf(),
        ensures
            count == if self.spec_grid().contains(key) {
                self@[self.spec_grid().slot_of(key)].len()
            } else {
                0
            },
    {
        match self.grid.index_of(key) {
            Some(index) => self.bins[index].len(),
            None => 0,
        }
    }

    /// The slot of maximum occupancy with its number of points, or `None`
    /// for an empty store. Of several slots that hold as many, the answer is
    /// the lowest.
    pub fn fullest(&self) -> (answer: Option<(usize, usize)>)
        requires
            self.wf(),
        ensures
            is_fullest(self@, answer),
    {
        let mut answer: Option<(usize, usize)> = None;
        let mut slot: usize = 0;
        while slot < self.bins.len()
            invariant
                self.wf(),
                slot <= self.bins.len(),
                match answer {
                    Some((best, most)) => {
                        &&& best < slot
                        &&& self@[best as int].len() == most
                        &&& most > 0
                        &&& forall|other: int|
                            0 <= other < slot ==> (#[trigger] self@[other]).len() < most || (
                            self@[other].len() == most && best <= other)
                    },
                    None => forall|other: int|
                        0 <= other < slot ==> (#[trigger] self@[other]).len() == 0,
                },
            decreases self.bins.len() - slot,
        {
            let count = self.bins[slot].len();
            let better = match answer {
                Some((best, most)) => count > most,
                None => count > 0,
            };
            if better {
                answer = Some((slot, count));
            }
            slot += 1;
        }
        answer
    }

    /// The cell of maximum occupancy with its number of points: the cell of
    /// the fullest slot.
    pub fn busiest(&self) -> (answer: Option<(CellKey, usize)>)
        requires
            self.wf(),
        ensures
            is_busiest_slot(self@, self.spec_grid(), answer),
    {
        proof {
            self.grid.lemma_slots();
        }
        match self.fullest() {
            Some((slot, count)) => Some((self.grid.key_of_index(slot), count)),
            None => None,
        }
    }
}

/// `answer` names the cell of the fullest slot with its count.
pub open spec fn is_busiest_slot(slots: Slots, grid: Grid, answer: Option<(CellKey, usize)>) -> bool {
    match answer {
        Some((key, count)) => grid.contains(key) && is_fullest(
            slots,
            Some((grid.slot_of(key) as usize, count)),
        ),
        None => is_fullest(slots, None),
    }
}

/// The contents of a sequence of bins, slot by slot.
pub open spec fn bin_views(bins: Seq<Bin>) -> Slots {
    Seq::new(bins.len(), |slot: int| bins[slot]@)
}

/// The first option that `DenseStore::new` refuses, if there is one.
pub open spec fn config_error(grid_width: usize, grid_height: usize, bin_capacity: usize) -> Option<
    BinError,
> {
    if grid_width == 0 {
        Some(BinError::Configuration(ConfigError::GridWidth))
    } else if grid_height == 0 {
        Some(BinError::Configuration(ConfigError::GridHeight))
    } else if grid_width * grid_height > crate::geometry::grid_limit() {
        Some(BinError::Configuration(ConfigError::GridTooLarge))
    } else if bin_capacity == 0 {
        Some(BinError::Configuration(ConfigError::BinCapacity))
    } else {
        None
    }
}

} // verus!
