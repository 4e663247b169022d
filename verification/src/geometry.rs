//! The cell key mapper: from a point and the bin size to the cell of the
//! point, and from a cell of a bounded grid to its slot in row-major order.

use vstd::pervasive::unreached;
use vstd::prelude::*;
use crate::cells::CellKey;
use crate::config::{BinError, ConfigError};

verus! {

/// A point of the plane, in whole units of the coordinate lattice.
#[derive(Clone, Copy, Debug, PartialEq, Eq, Structural)]
pub struct Point {
    pub x: i64,
    pub y: i64,
}

/// The index of the bin of size `bin_size` that holds `coordinate`: the
/// largest `k` with `k * bin_size <= coordinate`.
pub open spec fn cell_index(coordinate: int, bin_size: int) -> int {
    coordinate / bin_size
}

/// The cell of the point `(x, y)` in a grid of square bins of size
/// `bin_size`.
pub open spec fn cell_at(x: int, y: int, bin_size: int) -> (int, int) {
    (cell_index(x, bin_size), cell_index(y, bin_size))
}

/// The bin index is the floor of the quotient: the bin reaches from
/// `k * bin_size` up to, but not including, `(k + 1) * bin_size`.
pub proof fn lemma_cell_index_floor(coordinate: int, bin_size: int)
    requires
        bin_size > 0,
    ensures
        cell_index(coordinate, bin_size) * bin_size <= coordinate < (cell_index(
            coordinate,
            bin_size,
        ) + 1) * bin_size,
{
    let q = coordinate / bin_size;
    assert(q * bin_size <= coordinate < (q + 1) * bin_size) by (nonlinear_arith)
        requires
            bin_size > 0,
            q == coordinate / bin_size,
    ;
}

/// Only one bin holds a coordinate: an index whose bin reaches over the
/// coordinate is the bin index.
pub proof fn lemma_cell_index_unique(coordinate: int, bin_size: int, k: int)
    requires
        bin_size > 0,
        k * bin_size <= coordinate < (k + 1) * bin_size,
    ensures
        cell_index(coordinate, bin_size) == k,
{
    lemma_cell_index_floor(coordinate, bin_size);
    let q = cell_index(coordinate, bin_size);
    assert(k == q) by (nonlinear_arith)
        requires
            bin_size > 0,
            k * bin_size <= coordinate < (k + 1) * bin_size,
            q * bin_size <= coordinate < (q + 1) * bin_size,
    ;
}

/// A bin index is never larger in magnitude than the coordinate.
pub proof fn lemma_cell_index_range(coordinate: int, bin_size: int)
    requires
        bin_size > 0,
    ensures
        coordinate >= 0 ==> 0 <= cell_index(coordinate, bin_size) <= coordinate,
        coordinate < 0 ==> coordinate <= cell_index(coordinate, bin_size) < 0,
{
    lemma_cell_index_floor(coordinate, bin_size);
    let q = coordinate / bin_size;
    assert(coordinate >= 0 ==> 0 <= q <= coordinate) by (nonlinear_arith)
        requires
            bin_size > 0,
            q * bin_size <= coordinate < (q + 1) * bin_size,
    ;
    assert(coordinate < 0 ==> coordinate <= q < 0) by (nonlinear_arith)
        requires
            bin_size > 0,
            q * bin_size <= coordinate < (q + 1) * bin_size,
    ;
}

/// The cell of the point `(x, y)`: each coordinate divided by the bin size
/// and rounded down, so that a point on a cell boundary belongs to the
/// higher cell. The result depends on the three arguments alone.
pub fn cell_of(x: i64, y: i64, bin_size: i64) -> (key: CellKey)
    requires
        bin_size > 0,
    ensures
        (key.0 as int, key.1 as int) == cell_at(x as int, y as int, bin_size as int),
{
    proof {
        lemma_cell_index_range(x as int, bin_size as int);
        lemma_cell_index_range(y as int, bin_size as int);
    }
    let i = match x.checked_div_euclid(bin_size) {
        Some(i) => i,
        None => unreached(),
    };
    let j = match y.checked_div_euclid(bin_size) {
        Some(j) => j,
        None => unreached(),
    };
    (i, j)
}

/// The largest number of cells that a grid may have: every slot must be a
/// `usize`, and every column and row an `i64`.
pub open spec fn grid_limit() -> int {
    if usize::MAX <= i64::MAX {
        usize::MAX as int
    } else {
        i64::MAX as int
    }
}

/// A bounded grid of `width` columns and `height` rows, whose cells are
/// numbered row by row.
#[derive(Clone, Copy, Debug, PartialEq, Eq, Structural)]
pub struct Grid {
    pub width: usize,
    pub height: usize,
}

impl Grid {
    /// The grid has at least one cell and no more than can be indexed.
    pub open spec fn wf(&self) -> bool {
        &&& self.width > 0
        &&& self.height > 0
        &&& self.width * self.height <= grid_limit()
    }

    /// The number of cells.
    pub open spec fn cells(&self) -> int {
        self.width * self.height
    }

    /// The cell lies inside the grid.
    pub open spec fn contains(&self, key: CellKey) -> bool {
        0 <= key.0 < self.width && 0 <= key.1 < self.height
    }

    /// The slot of a cell in row-major order.
    pub open spec fn slot_of(&self, key: CellKey) -> int {
        key.1 * self.width + key.0
    }

    /// The cell that is stored in a slot.
    pub open spec fn key_of(&self, slot: int) -> CellKey {
        ((slot % self.width as int) as i64, (slot / self.width as int) as i64)
    }

    /// Cells inside the grid and slots below the cell count correspond one to
    /// one.
    pub proof fn lemma_slots(&self)
        requires
            self.wf(),
        ensures
            forall|key: CellKey| #[trigger]
                self.contains(key) ==> 0 <= self.slot_of(key) < self.cells() && self.key_of(
                    self.slot_of(key),
                ) == key,
            forall|slot: int|
                0 <= slot < self.cells() ==> self.contains(#[trigger] self.key_of(slot))
                    && self.slot_of(self.key_of(slot)) == slot,
    {
        let w = self.width as int;
        let h = self.height as int;
        assert forall|key: CellKey| #[trigger] self.contains(key) implies 0 <= self.slot_of(key)
            < self.cells() && self.key_of(self.slot_of(key)) == key by {
            let i = key.0 as int;
            let j = key.1 as int;
            assert(0 <= j * w + i < w * h && (j * w + i) % w == i && (j * w + i) / w == j)
                by (nonlinear_arith)
                requires
                    0 <= i < w,
                    0 <= j < h,
            ;
        }
        assert forall|slot: int| 0 <= slot < self.cells() implies self.contains(
            #[trigger] self.key_of(slot),
        ) && self.slot_of(self.key_of(slot)) == slot by {
            assert(0 <= slot % w < w && 0 <= slot / w < h && (slot / w) * w + slot % w == slot)
                by (nonlinear_arith)
                requires
                    0 <= slot < w * h,
                    w > 0,
            ;
        }
    }

    /// A grid of the given size: `GridWidth` or `GridHeight` if it has no
    /// column or no row, `GridTooLarge` if its cells cannot be indexed.
    pub fn new(width: usize, height: usize) -> (made: Result<Grid, BinError>)
        ensures
            made == if width == 0 {
                Err::<Grid, BinError>(BinError::Configuration(ConfigError::GridWidth))
            } else if height == 0 {
                Err(BinError::Configuration(ConfigError::GridHeight))
            } else if width * height > grid_limit() {
                Err(BinError::Configuration(ConfigError::GridTooLarge))
            } else {
                Ok(Grid { width, height })
            },
            made is Ok ==> made->Ok_0.wf(),
    {
        if width == 0 {
            return Err(BinError::Configuration(ConfigError::GridWidth));
        }
        if height == 0 {
            return Err(BinError::Configuration(ConfigError::GridHeight));
        }
        match width.checked_mul(height) {
            Some(cells) => {
                if cells as u128 > i64::MAX as u128 {
                    Err(BinError::Configuration(ConfigError::GridTooLarge))
                } else {
                    Ok(Grid { width, height })
                }
            },
            None => Err(BinError::Configuration(ConfigError::GridTooLarge)),
        }
    }

    /// The number of cells of the grid.
    pub fn cell_count(&self) -> (count: usize)
        requires
            self.wf(),
        ensures
            count == self.cells(),
    {
        self.width * self.height
    }

    /// The slot of cell `key`, `j * width + i` for the cell in column `i` and
    /// row `j`; `None` for a cell outside the grid.
    pub fn index_of(&self, key: CellKey) -> (slot: Option<usize>)
        requires
            self.wf(),
        ensures
            slot is Some <==> self.contains(key),
            slot is Some ==> slot->0 == self.slot_of(key) && slot->0 < self.cells(),
    {
        if key.0 < 0 || key.1 < 0 {
            return None;
        }
        if key.0 as u128 >= self.width as u128 || key.1 as u128 >= self.height as u128 {
            return None;
        }
        proof {
            assert(self.contains(key));
            self.lemma_slots();
        }
        let i = key.0 as usize;
        let j = key.1 as usize;
        Some(j * self.width + i)
    }

    /// The cell stored in slot `slot`.
    pub fn key_of_index(&self, slot: usize) -> (key: CellKey)
        requires
            self.wf(),
            slot < self.cells(),
        ensures
            key == self.key_of(slot as int),
            self.contains(key),
    {
        proof {
            self.lemma_slots();
        }
        ((slot % self.width) as i64, (slot / self.width) as i64)
    }
}

} // verus!
