//! The hash index behind the sparse store: a `hashbrown::HashMap` from cell
//! key to the bin of that cell. Verus does not look inside the map; what it
//! knows of it is stated here, call by call, and believed without proof.
//! Everything else in this crate is proved from these statements.

use vstd::prelude::*;
use crate::cells::{bin_at, CellKey, Cells};

verus! {

/// A `hashbrown::HashMap<CellKey, Vec<usize>>` with the default hasher,
/// opaque to the verifier. The map is held in a struct of this crate because
/// its own declaration cannot be given to Verus: its allocator parameter is
/// bound by a trait that Verus has no declaration of.
#[verifier::external_body]
pub struct CellTable {
    map: hashbrown::HashMap<CellKey, Vec<usize>>,
}

/// The entries of the hash map: each key that the map holds, with the
/// contents of the `Vec` stored under it.
pub uninterp spec fn table_cells(table: CellTable) -> Cells;

/// `listing` names every entry of `cells` exactly once, with its bin.
pub open spec fn lists_entries(listing: Seq<(CellKey, Vec<usize>)>, cells: Cells) -> bool {
    &&& forall|a: int, b: int|
        0 <= a < b < listing.len() ==> (#[trigger] listing[a]).0 != (#[trigger] listing[b]).0
    &&& forall|a: int|
        0 <= a < listing.len() ==> cells.dom().contains((#[trigger] listing[a]).0)
            && cells[listing[a].0] == listing[a].1@
    &&& forall|key: CellKey|
        cells.dom().contains(key) ==> exists|a: int|
            0 <= a < listing.len() && (#[trigger] listing[a]).0 == key
}

/// `keys` names every key of `cells` exactly once.
pub open spec fn lists_keys(keys: Seq<CellKey>, cells: Cells) -> bool {
    &&& keys.no_duplicates()
    &&& forall|key: CellKey| keys.contains(key) <==> cells.dom().contains(key)
}

/// `hashbrown::HashMap::new`: a map without entries.
#[verifier::external_body]
pub(crate) fn table_new() -> (table: CellTable)
    ensures
        table_cells(table) == (Map::<CellKey, Seq<usize>>::empty()),
{
    CellTable { map: hashbrown::HashMap::new() }
}

/// `HashMap::entry` followed by `Entry::or_insert_with(Vec::new)`: a mutable
/// borrow of the bin stored under `key`, which is first created empty when
/// the map has no such entry. No other entry is touched, and whatever the
/// caller leaves in the borrowed `Vec` is what the map holds under `key`.
#[verifier::external_body]
pub(crate) fn table_bin_mut(table: &mut CellTable, key: CellKey) -> (bin: &mut Vec<usize>)
    ensures
        bin@ == bin_at(table_cells(*old(table)), key),
        table_cells(*final(table)) == table_cells(*old(table)).insert(key, final(bin)@),
{
    table.map.entry(key).or_insert_with(Vec::new)
}

/// `HashMap::get`: the bin stored under `key`, if the map has that entry.
#[verifier::external_body]
pub(crate) fn table_get(table: &CellTable, key: CellKey) -> (found: Option<&Vec<usize>>)
    ensures
        found is Some <==> table_cells(*table).dom().contains(key),
        found is Some ==> found->0@ == table_cells(*table)[key],
{
    table.map.get(&key)
}

/// `HashMap::keys`, copied into a `Vec`: every key of the map once, in an
/// order that is not specified.
#[verifier::external_body]
pub(crate) fn table_keys(table: &CellTable) -> (keys: Vec<CellKey>)
    ensures
        lists_keys(keys@, table_cells(*table)),
{
    table.map.keys().copied().collect()
}

/// `HashMap::into_iter`, collected into a `Vec`: every entry of the map once,
/// moved out with its bin, in an order that is not specified.
#[verifier::external_body]
pub(crate) fn table_into_bins(table: CellTable) -> (listing: Vec<(CellKey, Vec<usize>)>)
    ensures
        lists_entries(listing@, table_cells(table)),
{
    table.map.into_iter().collect()
}

} // verus!
