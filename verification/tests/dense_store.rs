use grid_binning::config::{BinError, ConfigError};
use grid_binning::dense::{Bin, DenseStore};
use grid_binning::geometry::Grid;

#[test]
fn bin_new_is_empty_with_the_given_capacity() {
    let bin = Bin::new(256);
    assert_eq!(bin.len(), 0);
    assert_eq!(bin.capacity(), 256);
    assert_eq!(bin.points(), Vec::<usize>::new());
}

#[test]
fn bin_add_particle_fills_the_bin_in_order() {
    let mut bin = Bin::new(3);
    assert!(bin.add_particle(8));
    assert!(bin.add_particle(2));
    assert_eq!(bin.len(), 2);
    assert_eq!(bin.points(), vec![8, 2]);
    assert!(bin.add_particle(5));
    assert_eq!(bin.points(), vec![8, 2, 5]);
    assert_eq!(bin.capacity(), 3);
}

#[test]
fn bin_add_particle_leaves_a_full_bin_as_it_is() {
    let mut bin = Bin::new(2);
    assert!(bin.add_particle(1));
    assert!(bin.add_particle(2));
    assert!(!bin.add_particle(3));
    assert!(!bin.add_particle(4));
    assert_eq!(bin.len(), 2);
    assert_eq!(bin.points(), vec![1, 2]);
}

#[test]
fn bin_append_from_takes_what_fits() {
    let mut first = Bin::new(4);
    first.add_particle(1);
    first.add_particle(2);
    let mut second = Bin::new(4);
    second.add_particle(3);
    second.add_particle(4);
    second.add_particle(5);
    assert_eq!(first.append_from(&second), 2);
    assert_eq!(first.points(), vec![1, 2, 3, 4]);
    assert_eq!(first.append_from(&second), 0);
    assert_eq!(first.points(), vec![1, 2, 3, 4]);
    let mut third = Bin::new(4);
    assert_eq!(third.append_from(&second), 3);
    assert_eq!(third.points(), vec![3, 4, 5]);
}

#[test]
fn dense_new_store_has_an_empty_bin_for_every_cell() {
    let store = DenseStore::new(4, 3, 2).unwrap();
    assert_eq!(store.grid(), Grid { width: 4, height: 3 });
    assert_eq!(store.capacity(), 2);
    assert_eq!(store.placed(), 0);
    assert_eq!(store.dropped(), 0);
    for index in 0..12 {
        assert_eq!(store.count(index), 0);
        assert_eq!(store.bin(index), Vec::<usize>::new());
    }
    assert_eq!(store.fullest(), None);
    assert_eq!(store.busiest(), None);
}

#[test]
fn dense_new_refuses_options_out_of_range() {
    assert_eq!(
        DenseStore::new(0, 3, 2).err(),
        Some(BinError::Configuration(ConfigError::GridWidth))
    );
    assert_eq!(
        DenseStore::new(3, 0, 2).err(),
        Some(BinError::Configuration(ConfigError::GridHeight))
    );
    assert_eq!(
        DenseStore::new(usize::MAX, 2, 2).err(),
        Some(BinError::Configuration(ConfigError::GridTooLarge))
    );
    assert_eq!(
        DenseStore::new(3, 3, 0).err(),
        Some(BinError::Configuration(ConfigError::BinCapacity))
    );
    assert_eq!(
        DenseStore::new(0, 0, 0).err(),
        Some(BinError::Configuration(ConfigError::GridWidth))
    );
}

#[test]
fn dense_insert_places_a_point_in_its_slot() {
    let mut store = DenseStore::new(3, 3, 4).unwrap();
    assert_eq!(store.insert(4, 0), Ok(true));
    assert_eq!(store.insert(4, 1), Ok(true));
    assert_eq!(store.insert(8, 2), Ok(true));
    assert_eq!(store.bin(4), vec![0, 1]);
    assert_eq!(store.bin(8), vec![2]);
    assert_eq!(store.bin(0), Vec::<usize>::new());
    assert_eq!(store.count(4), 2);
    assert_eq!(store.bin_of((1, 1)), vec![0, 1]);
    assert_eq!(store.bin_of((2, 2)), vec![2]);
    assert_eq!(store.count_of((1, 1)), 2);
    assert_eq!(store.count_of((0, 0)), 0);
    assert_eq!(store.placed(), 3);
    assert_eq!(store.dropped(), 0);
}

#[test]
fn dense_insert_drops_and_counts_at_a_full_bin() {
    let mut store = DenseStore::new(2, 2, 2).unwrap();
    assert_eq!(store.insert(1, 10), Ok(true));
    assert_eq!(store.insert(1, 11), Ok(true));
    assert_eq!(store.insert(1, 12), Ok(false));
    assert_eq!(store.placed(), 2);
    assert_eq!(store.dropped(), 1);
    assert_eq!(store.bin(1), vec![10, 11]);
    assert_eq!(store.insert(0, 13), Ok(true));
    assert_eq!(store.placed(), 3);
    assert_eq!(store.dropped(), 1);
}

#[test]
fn dense_insert_reports_a_slot_outside_the_grid() {
    let mut store = DenseStore::new(2, 2, 2).unwrap();
    assert_eq!(store.insert(4, 7), Err(BinError::OutOfDomain { point: 7 }));
    assert_eq!(store.insert(usize::MAX, 9), Err(BinError::OutOfDomain { point: 9 }));
    assert_eq!(store.placed(), 0);
    assert_eq!(store.dropped(), 0);
    assert_eq!(store.insert(3, 7), Ok(true));
}

#[test]
fn dense_queries_outside_the_grid_find_nothing() {
    let mut store = DenseStore::new(2, 2, 2).unwrap();
    store.insert(3, 1).unwrap();
    assert_eq!(store.bin(4), Vec::<usize>::new());
    assert_eq!(store.count(4), 0);
    assert_eq!(store.bin_of((2, 0)), Vec::<usize>::new());
    assert_eq!(store.bin_of((-1, 1)), Vec::<usize>::new());
    assert_eq!(store.count_of((0, 2)), 0);
    assert_eq!(store.bin_of((1, 1)), vec![1]);
}

#[test]
fn dense_merge_from_appends_up_to_the_capacity() {
    let mut store = DenseStore::new(2, 1, 3).unwrap();
    store.insert(0, 0).unwrap();
    store.insert(0, 1).unwrap();
    store.insert(1, 2).unwrap();
    let mut partial = DenseStore::new(2, 1, 3).unwrap();
    partial.insert(0, 3).unwrap();
    partial.insert(0, 4).unwrap();
    partial.insert(1, 5).unwrap();
    store.merge_from(&partial);
    assert_eq!(store.bin(0), vec![0, 1, 3]);
    assert_eq!(store.bin(1), vec![2, 5]);
    assert_eq!(store.placed(), 5);
    assert_eq!(store.dropped(), 1);
    assert_eq!(partial.bin(0), vec![3, 4]);
}

#[test]
fn dense_merge_from_carries_the_drops_of_the_partial() {
    let mut store = DenseStore::new(1, 1, 2).unwrap();
    store.insert(0, 0).unwrap();
    let mut partial = DenseStore::new(1, 1, 2).unwrap();
    partial.insert(0, 1).unwrap();
    partial.insert(0, 2).unwrap();
    assert_eq!(partial.insert(0, 3), Ok(false));
    assert_eq!(partial.dropped(), 1);
    store.merge_from(&partial);
    assert_eq!(store.bin(0), vec![0, 1]);
    assert_eq!(store.placed(), 2);
    assert_eq!(store.dropped(), 2);
    assert_eq!(store.placed() + store.dropped(), 4);
}

#[test]
fn dense_merge_order_does_not_change_the_counts() {
    let parts: Vec<Vec<(usize, usize)>> = vec![
        vec![(0, 0), (0, 1), (1, 2)],
        vec![(0, 3), (2, 4)],
        vec![(0, 5), (2, 6), (2, 7), (2, 8)],
    ];
    let orders: Vec<Vec<usize>> =
        vec![vec![0, 1, 2], vec![0, 2, 1], vec![1, 0, 2], vec![1, 2, 0], vec![2, 0, 1], vec![2, 1, 0]];
    for order in orders {
        let mut store = DenseStore::new(3, 1, 3).unwrap();
        for which in order {
            let mut partial = DenseStore::new(3, 1, 3).unwrap();
            for (index, point) in &parts[which] {
                partial.insert(*index, *point).unwrap();
            }
            store.merge_from(&partial);
        }
        assert_eq!(store.count(0), 3);
        assert_eq!(store.count(1), 1);
        assert_eq!(store.count(2), 3);
        assert_eq!(store.placed(), 7);
        assert_eq!(store.dropped(), 2);
    }
}

#[test]
fn dense_fullest_names_the_lowest_of_the_fullest_slots() {
    let mut store = DenseStore::new(3, 2, 4).unwrap();
    store.insert(5, 0).unwrap();
    store.insert(2, 1).unwrap();
    assert_eq!(store.fullest(), Some((2, 1)));
    assert_eq!(store.busiest(), Some(((2, 0), 1)));
    store.insert(5, 2).unwrap();
    assert_eq!(store.fullest(), Some((5, 2)));
    assert_eq!(store.busiest(), Some(((2, 1), 2)));
    store.insert(2, 3).unwrap();
    assert_eq!(store.fullest(), Some((2, 2)));
}

#[test]
fn dense_into_bins_hands_out_one_bin_per_slot() {
    let mut store = DenseStore::new(2, 2, 3).unwrap();
    store.insert(0, 5).unwrap();
    store.insert(3, 6).unwrap();
    store.insert(3, 7).unwrap();
    let bins = store.into_bins();
    assert_eq!(bins.len(), 4);
    assert_eq!(bins[0].points(), vec![5]);
    assert_eq!(bins[1].points(), Vec::<usize>::new());
    assert_eq!(bins[3].points(), vec![6, 7]);
    assert_eq!(bins[3].capacity(), 3);
}

#[test]
fn dense_from_bins_puts_a_store_together() {
    let grid = Grid::new(2, 1).unwrap();
    let mut first = Bin::new(2);
    first.add_particle(4);
    let mut second = Bin::new(2);
    second.add_particle(8);
    second.add_particle(9);
    let store = DenseStore::from_bins(grid, 2, vec![first, second], 5).unwrap();
    assert_eq!(store.bin(0), vec![4]);
    assert_eq!(store.bin(1), vec![8, 9]);
    assert_eq!(store.placed(), 3);
    assert_eq!(store.dropped(), 5);
    assert_eq!(store.grid(), grid);
    assert_eq!(store.capacity(), 2);
    assert_eq!(store.busiest(), Some(((1, 0), 2)));
}

#[test]
fn dense_from_bins_refuses_bins_that_do_not_fit() {
    let grid = Grid::new(2, 1).unwrap();
    assert!(DenseStore::from_bins(grid, 2, vec![Bin::new(2)], 0).is_none());
    assert!(DenseStore::from_bins(grid, 2, vec![Bin::new(2), Bin::new(3)], 0).is_none());
    assert!(DenseStore::from_bins(grid, 2, vec![Bin::new(2), Bin::new(2), Bin::new(2)], 0).is_none());
    let mut full = Bin::new(2);
    full.add_particle(1);
    assert!(DenseStore::from_bins(grid, 2, vec![full, Bin::new(2)], usize::MAX).is_none());
    assert!(DenseStore::from_bins(grid, 2, vec![Bin::new(2), Bin::new(2)], usize::MAX).is_some());
}
