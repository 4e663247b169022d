use grid_binning::sparse::SparseStore;

#[test]
fn sparse_new_store_is_empty() {
    let store = SparseStore::new();
    assert_eq!(store.total(), 0);
    assert_eq!(store.cells(), Vec::<(i64, i64)>::new());
    assert_eq!(store.count((0, 0)), 0);
    assert_eq!(store.bin((0, 0)), Vec::<usize>::new());
    assert_eq!(store.busiest(), None);
}

#[test]
fn sparse_insert_appends_to_the_bin_of_the_cell() {
    let mut store = SparseStore::new();
    store.insert((3, 4), 10);
    store.insert((3, 4), 7);
    store.insert((-1, 2), 5);
    store.insert((3, 4), 10);
    assert_eq!(store.bin((3, 4)), vec![10, 7, 10]);
    assert_eq!(store.bin((-1, 2)), vec![5]);
    assert_eq!(store.bin((4, 3)), Vec::<usize>::new());
    assert_eq!(store.count((3, 4)), 3);
    assert_eq!(store.count((-1, 2)), 1);
    assert_eq!(store.count((9, 9)), 0);
    assert_eq!(store.total(), 4);
}

#[test]
fn sparse_insert_never_overflows_a_bin() {
    let mut store = SparseStore::new();
    for point in 0..10_000usize {
        store.insert((0, 0), point);
    }
    assert_eq!(store.count((0, 0)), 10_000);
    assert_eq!(store.total(), 10_000);
    let bin = store.bin((0, 0));
    for point in 0..10_000usize {
        assert_eq!(bin[point], point);
    }
}

#[test]
fn sparse_cells_lists_every_occupied_cell_once() {
    let mut store = SparseStore::new();
    store.insert((1, 1), 0);
    store.insert((2, 2), 1);
    store.insert((1, 1), 2);
    store.insert((-7, 0), 3);
    let mut cells = store.cells();
    cells.sort();
    assert_eq!(cells, vec![(-7, 0), (1, 1), (2, 2)]);
}

#[test]
fn sparse_merge_from_extends_and_creates_bins() {
    let mut store = SparseStore::new();
    store.insert((0, 0), 0);
    store.insert((0, 0), 1);
    store.insert((1, 0), 2);
    let mut partial = SparseStore::new();
    partial.insert((0, 0), 3);
    partial.insert((5, 5), 4);
    partial.insert((5, 5), 5);
    store.merge_from(partial);
    assert_eq!(store.bin((0, 0)), vec![0, 1, 3]);
    assert_eq!(store.bin((1, 0)), vec![2]);
    assert_eq!(store.bin((5, 5)), vec![4, 5]);
    assert_eq!(store.total(), 6);
    let mut cells = store.cells();
    cells.sort();
    assert_eq!(cells, vec![(0, 0), (1, 0), (5, 5)]);
}

#[test]
fn sparse_merge_from_an_empty_partial_changes_nothing() {
    let mut store = SparseStore::new();
    store.insert((2, 3), 8);
    store.merge_from(SparseStore::new());
    assert_eq!(store.bin((2, 3)), vec![8]);
    assert_eq!(store.total(), 1);
    assert_eq!(store.cells(), vec![(2, 3)]);
}

#[test]
fn sparse_merge_order_does_not_change_the_counts() {
    let parts: Vec<Vec<((i64, i64), usize)>> = vec![
        vec![((0, 0), 0), ((1, 1), 1), ((0, 0), 2)],
        vec![((1, 1), 3), ((2, 2), 4)],
        vec![((0, 0), 5), ((2, 2), 6), ((2, 2), 7)],
    ];
    let orders: Vec<Vec<usize>> =
        vec![vec![0, 1, 2], vec![0, 2, 1], vec![1, 0, 2], vec![1, 2, 0], vec![2, 0, 1], vec![2, 1, 0]];
    for order in orders {
        let mut store = SparseStore::new();
        for which in order {
            let mut partial = SparseStore::new();
            for (key, point) in &parts[which] {
                partial.insert(*key, *point);
            }
            store.merge_from(partial);
        }
        assert_eq!(store.count((0, 0)), 3);
        assert_eq!(store.count((1, 1)), 2);
        assert_eq!(store.count((2, 2)), 3);
        assert_eq!(store.total(), 8);
        let mut bin = store.bin((2, 2));
        bin.sort();
        assert_eq!(bin, vec![4, 6, 7]);
    }
}

#[test]
fn sparse_busiest_names_the_fullest_cell() {
    let mut store = SparseStore::new();
    store.insert((4, 4), 0);
    store.insert((1, 2), 1);
    store.insert((1, 2), 2);
    store.insert((9, 0), 3);
    assert_eq!(store.busiest(), Some(((1, 2), 2)));
}

#[test]
fn sparse_busiest_breaks_a_tie_in_row_major_order() {
    let mut store = SparseStore::new();
    store.insert((5, 1), 0);
    store.insert((0, 2), 1);
    store.insert((3, 1), 2);
    store.insert((7, 0), 3);
    assert_eq!(store.busiest(), Some(((7, 0), 1)));
    store.insert((3, 1), 4);
    store.insert((5, 1), 5);
    assert_eq!(store.busiest(), Some(((3, 1), 2)));
}
