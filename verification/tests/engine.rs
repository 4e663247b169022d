use grid_binning::accumulator::{accumulate_dense, accumulate_sparse};
use grid_binning::chunks::plan_chunks;
use grid_binning::config::{BinError, Config, ConfigError, OverflowPolicy, PointPolicy, Stats};
use grid_binning::coordinator::{gather, merge_dense, merge_sparse};
use grid_binning::dense::DenseStore;
use grid_binning::engine::{
    bin_dense, bin_sites_dense, bin_sites_sparse, bin_sparse, locate, points_of, screen,
};
use grid_binning::geometry::{Grid, Point};
use grid_binning::sparse::SparseStore;

fn options(workers: usize) -> Config {
    Config {
        grid_width: 100,
        grid_height: 100,
        bin_capacity: 256,
        worker_count: workers,
        overflow_policy: OverflowPolicy::Drop,
        malformed_policy: PointPolicy::RejectRun,
        domain_policy: PointPolicy::RejectRun,
    }
}

fn scattered(count: usize) -> Vec<Point> {
    let mut state: u64 = 0x2545_F491_4F6C_DD1D;
    let mut points = Vec::with_capacity(count);
    for _ in 0..count {
        state ^= state << 13;
        state ^= state >> 7;
        state ^= state << 17;
        let x = (state % 10_000) as i64;
        state ^= state << 13;
        state ^= state >> 7;
        state ^= state << 17;
        let y = (state % 10_000) as i64;
        points.push(Point { x, y });
    }
    points
}

fn float_site(x: f64, y: f64, bin_size: f64) -> Option<(i64, i64)> {
    if x.is_finite() && y.is_finite() {
        Some(((x / bin_size).floor() as i64, (y / bin_size).floor() as i64))
    } else {
        None
    }
}

#[test]
fn plan_chunks_divides_evenly() {
    assert_eq!(plan_chunks(8, 4), vec![(0, 2), (2, 4), (4, 6), (6, 8)]);
    assert_eq!(plan_chunks(1_000_000, 4).len(), 4);
    assert_eq!(plan_chunks(1_000_000, 4)[3], (750_000, 1_000_000));
    assert_eq!(plan_chunks(5, 1), vec![(0, 5)]);
}

#[test]
fn plan_chunks_puts_the_remainder_in_one_more_chunk() {
    assert_eq!(plan_chunks(10, 4), vec![(0, 2), (2, 4), (4, 6), (6, 8), (8, 10)]);
    assert_eq!(plan_chunks(10, 3), vec![(0, 3), (3, 6), (6, 9), (9, 10)]);
}

#[test]
fn plan_chunks_with_more_workers_than_points() {
    assert_eq!(plan_chunks(3, 8), vec![(0, 1), (1, 2), (2, 3)]);
    assert_eq!(plan_chunks(0, 8), Vec::<(usize, usize)>::new());
    assert_eq!(plan_chunks(0, 1), Vec::<(usize, usize)>::new());
}

#[test]
fn locate_maps_every_point_to_its_cell() {
    let points = vec![
        Point { x: 0, y: 0 },
        Point { x: 99, y: 99 },
        Point { x: 100, y: 100 },
        Point { x: -1, y: 250 },
    ];
    assert_eq!(
        locate(&points, 100),
        Ok(vec![Some((0, 0)), Some((0, 0)), Some((1, 1)), Some((-1, 2))])
    );
    assert_eq!(locate(&Vec::new(), 100), Ok(Vec::new()));
}

#[test]
fn locate_refuses_a_bin_size_that_is_not_positive() {
    let points = vec![Point { x: 1, y: 1 }];
    assert_eq!(locate(&points, 0), Err(BinError::Configuration(ConfigError::BinSize)));
    assert_eq!(locate(&points, -10), Err(BinError::Configuration(ConfigError::BinSize)));
    assert_eq!(locate(&points, i64::MIN), Err(BinError::Configuration(ConfigError::BinSize)));
}

#[test]
fn screen_counts_the_points_outside_the_grid() {
    let sites = vec![Some((0, 0)), None, Some((5, 0)), Some((1, 1)), None, Some((0, -1))];
    let grid = Grid::new(2, 2).unwrap();
    assert_eq!(screen(&sites, grid, PointPolicy::RejectPoint), Ok(2));
    let wide = Grid::new(6, 2).unwrap();
    assert_eq!(screen(&sites, wide, PointPolicy::RejectPoint), Ok(1));
    assert_eq!(screen(&Vec::new(), grid, PointPolicy::RejectPoint), Ok(0));
    assert_eq!(screen(&Vec::new(), grid, PointPolicy::RejectRun), Ok(0));
}

#[test]
fn screen_refuses_the_run_at_the_first_point_outside_the_grid() {
    let sites = vec![None, Some((0, 0)), Some((5, 0)), None, Some((0, -1))];
    let grid = Grid::new(2, 2).unwrap();
    assert_eq!(screen(&sites, grid, PointPolicy::RejectRun), Err(BinError::OutOfDomain { point: 2 }));
    let wide = Grid::new(6, 2).unwrap();
    assert_eq!(screen(&sites, wide, PointPolicy::RejectRun), Err(BinError::OutOfDomain { point: 4 }));
    let inside = vec![None, Some((0, 0)), Some((1, 1))];
    assert_eq!(screen(&inside, grid, PointPolicy::RejectRun), Ok(0));
}

#[test]
fn accumulate_sparse_bins_exactly_its_chunk() {
    let sites = vec![Some((0, 0)), Some((1, 1)), Some((0, 0)), None, Some((1, 1)), Some((0, 0))];
    let partial = accumulate_sparse(&sites, 1, 5, PointPolicy::RejectPoint).unwrap();
    assert_eq!(partial.bin((0, 0)), vec![2]);
    assert_eq!(partial.bin((1, 1)), vec![1, 4]);
    assert_eq!(partial.total(), 3);
    let nothing = accumulate_sparse(&sites, 3, 3, PointPolicy::RejectRun).unwrap();
    assert_eq!(nothing.total(), 0);
}

#[test]
fn accumulate_sparse_raises_a_local_error_at_a_point_without_a_cell() {
    let sites = vec![None, Some((1, 1)), Some((0, 0)), None, Some((1, 1)), None];
    assert_eq!(
        accumulate_sparse(&sites, 1, 6, PointPolicy::RejectRun).err(),
        Some(BinError::MalformedPoint { point: 3 })
    );
    assert_eq!(
        accumulate_sparse(&sites, 0, 6, PointPolicy::RejectRun).err(),
        Some(BinError::MalformedPoint { point: 0 })
    );
    assert_eq!(accumulate_sparse(&sites, 1, 3, PointPolicy::RejectRun).unwrap().total(), 2);
    assert_eq!(accumulate_sparse(&sites, 0, 6, PointPolicy::RejectPoint).unwrap().total(), 3);
}

#[test]
fn accumulate_dense_bins_exactly_its_chunk() {
    let sites =
        vec![Some((0, 0)), Some((1, 1)), Some((1, 1)), None, Some((1, 1)), Some((9, 9)), Some((0, 0))];
    let grid = Grid::new(2, 2).unwrap();
    let partial = accumulate_dense(&sites, 1, 6, grid, 2, PointPolicy::RejectPoint).unwrap();
    assert_eq!(partial.bin(3), vec![1, 2]);
    assert_eq!(partial.bin(0), Vec::<usize>::new());
    assert_eq!(partial.placed(), 2);
    assert_eq!(partial.dropped(), 1);
}

#[test]
fn accumulate_dense_raises_a_local_error_at_a_point_without_a_cell() {
    let sites = vec![Some((0, 0)), Some((9, 9)), None, Some((1, 1)), None];
    let grid = Grid::new(2, 2).unwrap();
    assert_eq!(
        accumulate_dense(&sites, 0, 5, grid, 2, PointPolicy::RejectRun).err(),
        Some(BinError::MalformedPoint { point: 2 })
    );
    assert_eq!(
        accumulate_dense(&sites, 3, 5, grid, 2, PointPolicy::RejectRun).err(),
        Some(BinError::MalformedPoint { point: 4 })
    );
    let partial = accumulate_dense(&sites, 0, 2, grid, 2, PointPolicy::RejectRun).unwrap();
    assert_eq!(partial.placed(), 1);
    assert_eq!(partial.dropped(), 0);
}

#[test]
fn merge_sparse_folds_the_partials_in_order() {
    let sites = vec![Some((0, 0)), Some((1, 1)), Some((0, 0)), Some((1, 1)), Some((0, 0))];
    let partials = vec![
        accumulate_sparse(&sites, 0, 2, PointPolicy::RejectRun).unwrap(),
        accumulate_sparse(&sites, 2, 4, PointPolicy::RejectRun).unwrap(),
        accumulate_sparse(&sites, 4, 5, PointPolicy::RejectRun).unwrap(),
    ];
    let mut store = SparseStore::new();
    merge_sparse(&mut store, partials);
    assert_eq!(store.bin((0, 0)), vec![0, 2, 4]);
    assert_eq!(store.bin((1, 1)), vec![1, 3]);
    assert_eq!(store.total(), 5);
}

#[test]
fn merge_dense_folds_the_partials_in_order() {
    let sites = vec![Some((0, 0)), Some((1, 1)), Some((0, 0)), Some((1, 1)), Some((0, 0))];
    let grid = Grid::new(2, 2).unwrap();
    let partials = vec![
        accumulate_dense(&sites, 0, 2, grid, 2, PointPolicy::RejectRun).unwrap(),
        accumulate_dense(&sites, 2, 4, grid, 2, PointPolicy::RejectRun).unwrap(),
        accumulate_dense(&sites, 4, 5, grid, 2, PointPolicy::RejectRun).unwrap(),
    ];
    let mut store = DenseStore::new(2, 2, 2).unwrap();
    merge_dense(&mut store, &partials);
    assert_eq!(store.bin(0), vec![0, 2]);
    assert_eq!(store.bin(3), vec![1, 3]);
    assert_eq!(store.placed(), 4);
    assert_eq!(store.dropped(), 1);
}

#[test]
fn gather_hands_on_what_every_worker_delivered() {
    assert_eq!(gather(vec![Some(3), Some(1), Some(2)]), Ok(vec![3, 1, 2]));
    assert_eq!(gather(Vec::<Option<u8>>::new()), Ok(Vec::new()));
}

#[test]
fn gather_reports_the_first_worker_that_failed() {
    assert_eq!(
        gather(vec![Some(3), None, Some(2), None]),
        Err(BinError::WorkerFailure { worker: 1 })
    );
    assert_eq!(gather(vec![None::<u8>]), Err(BinError::WorkerFailure { worker: 0 }));
}

#[test]
fn concrete_scenario_four_points() {
    // Coordinates in tenths of a unit: (0, 0), (9.9, 9.9), (10, 10), (19, 19),
    // with bins of 10 units.
    let points = vec![
        Point { x: 0, y: 0 },
        Point { x: 99, y: 99 },
        Point { x: 100, y: 100 },
        Point { x: 190, y: 190 },
    ];
    assert_eq!(
        locate(&points, 100),
        Ok(vec![Some((0, 0)), Some((0, 0)), Some((1, 1)), Some((1, 1))])
    );
    let (store, stats) = bin_sparse(&points, 100, &options(4)).unwrap();
    assert_eq!(store.count((0, 0)), 2);
    assert_eq!(store.count((1, 1)), 2);
    assert_eq!(store.bin((0, 0)), vec![0, 1]);
    assert_eq!(store.bin((1, 1)), vec![2, 3]);
    let mut cells = store.cells();
    cells.sort();
    assert_eq!(cells, vec![(0, 0), (1, 1)]);
    assert_eq!(store.count((0, 1)), 0);
    assert_eq!(store.count((1, 0)), 0);
    assert_eq!(store.total(), 4);
    assert_eq!(
        stats,
        Stats { placed: 4, dropped: 0, malformed: 0, out_of_domain: 0, busiest: Some(((0, 0), 2)) }
    );
    let (grid, grid_stats) = bin_dense(&points, 100, &options(4)).unwrap();
    for slot in 0..10_000 {
        let expected = if slot == 0 || slot == 101 { 2 } else { 0 };
        assert_eq!(grid.count(slot), expected);
    }
    assert_eq!(grid.bin_of((0, 0)), vec![0, 1]);
    assert_eq!(grid.bin_of((1, 1)), vec![2, 3]);
    assert_eq!(grid_stats, stats);
}

#[test]
fn concrete_scenario_with_sites_from_floating_point() {
    let coordinates = [(0.0, 0.0), (9.9, 9.9), (10.0, 10.0), (19.0, 19.0)];
    let sites: Vec<Option<(i64, i64)>> =
        coordinates.iter().map(|(x, y)| float_site(*x, *y, 10.0)).collect();
    assert_eq!(sites, vec![Some((0, 0)), Some((0, 0)), Some((1, 1)), Some((1, 1))]);
    let (store, stats) = bin_sites_sparse(&sites, &options(2)).unwrap();
    assert_eq!(store.count((0, 0)), 2);
    assert_eq!(store.count((1, 1)), 2);
    assert_eq!(store.cells().len(), 2);
    assert_eq!(stats.placed, 4);
    let (grid, _) = bin_sites_dense(&sites, &options(2)).unwrap();
    assert_eq!(grid.count_of((0, 0)), 2);
    assert_eq!(grid.count_of((1, 1)), 2);
    assert_eq!(grid.placed(), 4);
    assert_eq!(grid.dropped(), 0);
}

#[test]
fn overflow_scenario_three_points_in_a_bin_of_two() {
    let sites = vec![Some((3, 1)), Some((3, 1)), Some((3, 1))];
    let mut config = options(1);
    config.grid_width = 4;
    config.grid_height = 2;
    config.bin_capacity = 2;
    for workers in [1usize, 2, 3, 8] {
        config.worker_count = workers;
        let (store, stats) = bin_sites_dense(&sites, &config).unwrap();
        assert_eq!(stats.placed, 2);
        assert_eq!(stats.dropped, 1);
        assert_eq!(stats.malformed, 0);
        assert_eq!(stats.out_of_domain, 0);
        assert_eq!(stats.busiest, Some(((3, 1), 2)));
        assert_eq!(store.placed(), 2);
        assert_eq!(store.dropped(), 1);
        assert_eq!(store.bin(7), vec![0, 1]);
        assert_eq!(store.count_of((3, 1)), 2);
    }
}

#[test]
fn overflow_is_an_error_where_the_policy_says_so() {
    let sites = vec![Some((0, 0)), Some((0, 0)), Some((0, 0)), Some((0, 0)), Some((1, 0))];
    let mut config = options(2);
    config.grid_width = 2;
    config.grid_height = 1;
    config.bin_capacity = 2;
    config.overflow_policy = OverflowPolicy::Error;
    assert_eq!(
        bin_sites_dense(&sites, &config).err(),
        Some(BinError::CapacityExceeded { dropped: 2 })
    );
    config.bin_capacity = 4;
    let (store, stats) = bin_sites_dense(&sites, &config).unwrap();
    assert_eq!(stats.placed, 5);
    assert_eq!(stats.dropped, 0);
    assert_eq!(store.count(0), 4);
}

#[test]
fn sparse_run_holds_every_point() {
    let points = scattered(5_000);
    let (store, stats) = bin_sparse(&points, 100, &options(4)).unwrap();
    assert_eq!(stats.placed, 5_000);
    assert_eq!(stats.dropped, 0);
    assert_eq!(store.total(), 5_000);
    let mut sum = 0;
    let mut seen = vec![false; 5_000];
    for key in store.cells() {
        let bin = store.bin(key);
        sum += bin.len();
        for point in bin {
            assert!(!seen[point]);
            seen[point] = true;
            assert_eq!((points[point].x.div_euclid(100), points[point].y.div_euclid(100)), key);
        }
    }
    assert_eq!(sum, 5_000);
    assert!(seen.iter().all(|found| *found));
}

#[test]
fn dense_run_accounts_for_every_point() {
    let points = scattered(5_000);
    let mut config = options(4);
    config.bin_capacity = 1;
    let (store, stats) = bin_dense(&points, 100, &config).unwrap();
    assert_eq!(stats.placed + stats.dropped, 5_000);
    assert!(stats.dropped > 0);
    let mut sum = 0;
    for slot in 0..10_000 {
        assert!(store.count(slot) <= 1);
        sum += store.count(slot);
    }
    assert_eq!(sum, stats.placed);
    assert_eq!(store.placed(), stats.placed);
    assert_eq!(store.dropped(), stats.dropped);
}

#[test]
fn worker_count_does_not_change_the_partition() {
    let points = scattered(3_001);
    let (reference, reference_stats) = bin_sparse(&points, 250, &options(1)).unwrap();
    let mut cells = reference.cells();
    cells.sort();
    for workers in [2usize, 8, 3, 5_000] {
        let (store, stats) = bin_sparse(&points, 250, &options(workers)).unwrap();
        let mut other = store.cells();
        other.sort();
        assert_eq!(other, cells);
        for key in &cells {
            assert_eq!(store.count(*key), reference.count(*key));
            assert_eq!(store.bin(*key), reference.bin(*key));
        }
        assert_eq!(stats, reference_stats);
    }
    let mut config = options(1);
    config.bin_capacity = 3;
    let (grid, grid_stats) = bin_dense(&points, 250, &config).unwrap();
    for workers in [2usize, 8, 7] {
        config.worker_count = workers;
        let (store, stats) = bin_dense(&points, 250, &config).unwrap();
        for slot in 0..10_000 {
            assert_eq!(store.count(slot), grid.count(slot));
        }
        assert_eq!(stats, grid_stats);
    }
}

#[test]
fn backends_agree_where_no_bin_overflows() {
    let points = scattered(4_000);
    let (sparse, sparse_stats) = bin_sparse(&points, 100, &options(4)).unwrap();
    let most = sparse_stats.busiest.unwrap().1;
    let mut config = options(4);
    config.bin_capacity = most;
    let (dense, dense_stats) = bin_dense(&points, 100, &config).unwrap();
    assert_eq!(dense_stats.dropped, 0);
    assert_eq!(dense_stats.placed, sparse_stats.placed);
    let grid = dense.grid();
    for slot in 0..grid.cell_count() {
        let key = grid.key_of_index(slot);
        assert_eq!(dense.count(slot), sparse.count(key));
        assert_eq!(dense.bin(slot), sparse.bin(key));
    }
    for key in sparse.cells() {
        assert!(grid.index_of(key).is_some());
    }
    assert_eq!(dense_stats.busiest, sparse_stats.busiest);
}

#[test]
fn run_refuses_options_out_of_range() {
    let points = vec![Point { x: 1, y: 1 }];
    let sites = vec![Some((0, 0))];
    assert_eq!(
        bin_sparse(&points, 0, &options(4)).err(),
        Some(BinError::Configuration(ConfigError::BinSize))
    );
    assert_eq!(
        bin_dense(&points, -3, &options(4)).err(),
        Some(BinError::Configuration(ConfigError::BinSize))
    );
    assert_eq!(
        bin_sites_sparse(&sites, &options(0)).err(),
        Some(BinError::Configuration(ConfigError::WorkerCount))
    );
    assert_eq!(
        bin_sites_dense(&sites, &options(0)).err(),
        Some(BinError::Configuration(ConfigError::WorkerCount))
    );
    let mut config = options(4);
    config.grid_width = 0;
    assert_eq!(
        bin_sites_dense(&sites, &config).err(),
        Some(BinError::Configuration(ConfigError::GridWidth))
    );
    assert!(bin_sites_sparse(&sites, &config).is_ok());
    config = options(4);
    config.grid_height = 0;
    assert_eq!(
        bin_sites_dense(&sites, &config).err(),
        Some(BinError::Configuration(ConfigError::GridHeight))
    );
    config = options(4);
    config.grid_width = usize::MAX;
    assert_eq!(
        bin_sites_dense(&sites, &config).err(),
        Some(BinError::Configuration(ConfigError::GridTooLarge))
    );
    config = options(4);
    config.bin_capacity = 0;
    assert_eq!(
        bin_sites_dense(&sites, &config).err(),
        Some(BinError::Configuration(ConfigError::BinCapacity))
    );
    assert!(bin_sites_sparse(&sites, &config).is_ok());
}

#[test]
fn run_refuses_or_counts_points_without_a_cell() {
    let sites = vec![Some((0, 0)), float_site(f64::NAN, 1.0, 10.0), Some((0, 0)), None];
    assert_eq!(
        bin_sites_sparse(&sites, &options(2)).err(),
        Some(BinError::MalformedPoint { point: 1 })
    );
    assert_eq!(
        bin_sites_dense(&sites, &options(2)).err(),
        Some(BinError::MalformedPoint { point: 1 })
    );
    let mut config = options(2);
    config.malformed_policy = PointPolicy::RejectPoint;
    let (store, stats) = bin_sites_sparse(&sites, &config).unwrap();
    assert_eq!(stats.placed, 2);
    assert_eq!(stats.malformed, 2);
    assert_eq!(store.bin((0, 0)), vec![0, 2]);
    let (grid, grid_stats) = bin_sites_dense(&sites, &config).unwrap();
    assert_eq!(grid_stats.placed, 2);
    assert_eq!(grid_stats.malformed, 2);
    assert_eq!(grid_stats.out_of_domain, 0);
    assert_eq!(grid.bin(0), vec![0, 2]);
}

#[test]
fn dense_run_refuses_or_counts_points_outside_the_grid() {
    let sites = vec![Some((0, 0)), Some((100, 0)), Some((99, 99)), Some((0, -1))];
    assert_eq!(
        bin_sites_dense(&sites, &options(2)).err(),
        Some(BinError::OutOfDomain { point: 1 })
    );
    let mut config = options(2);
    config.domain_policy = PointPolicy::RejectPoint;
    let (grid, stats) = bin_sites_dense(&sites, &config).unwrap();
    assert_eq!(stats.placed, 2);
    assert_eq!(stats.dropped, 0);
    assert_eq!(stats.out_of_domain, 2);
    assert_eq!(stats.placed + stats.dropped + stats.malformed + stats.out_of_domain, 4);
    assert_eq!(grid.bin(0), vec![0]);
    assert_eq!(grid.bin(9_999), vec![2]);
    let (store, sparse_stats) = bin_sites_sparse(&sites, &options(2)).unwrap();
    assert_eq!(sparse_stats.placed, 4);
    assert_eq!(store.count((100, 0)), 1);
    assert_eq!(store.count((0, -1)), 1);
}

#[test]
fn run_on_no_points_gives_an_empty_partition() {
    let (store, stats) = bin_sites_sparse(&Vec::new(), &options(4)).unwrap();
    assert_eq!(store.total(), 0);
    assert_eq!(
        stats,
        Stats { placed: 0, dropped: 0, malformed: 0, out_of_domain: 0, busiest: None }
    );
    let (grid, grid_stats) = bin_sites_dense(&Vec::new(), &options(4)).unwrap();
    assert_eq!(grid.placed(), 0);
    assert_eq!(grid_stats, stats);
}

#[test]
fn conclude_sparse_reads_the_statistics_from_the_store() {
    let mut store = SparseStore::new();
    store.insert((2, 1), 0);
    store.insert((2, 1), 1);
    store.insert((0, 0), 2);
    let (store, stats) = grid_binning::engine::conclude_sparse(store, 10);
    assert_eq!(
        stats,
        Stats { placed: 3, dropped: 0, malformed: 7, out_of_domain: 0, busiest: Some(((2, 1), 2)) }
    );
    assert_eq!(store.total(), 3);
}

#[test]
fn conclude_dense_applies_the_overflow_policy() {
    let mut store = DenseStore::new(2, 2, 1).unwrap();
    store.insert(1, 0).unwrap();
    store.insert(1, 1).unwrap();
    store.insert(2, 2).unwrap();
    let (store, stats) =
        grid_binning::engine::conclude_dense(store, 12, 5, OverflowPolicy::Drop).unwrap();
    assert_eq!(
        stats,
        Stats { placed: 2, dropped: 1, malformed: 4, out_of_domain: 5, busiest: Some(((1, 0), 1)) }
    );
    assert_eq!(
        grid_binning::engine::conclude_dense(store, 12, 5, OverflowPolicy::Error).err(),
        Some(BinError::CapacityExceeded { dropped: 1 })
    );
    let clean = DenseStore::new(2, 2, 1).unwrap();
    assert!(grid_binning::engine::conclude_dense(clean, 0, 0, OverflowPolicy::Error).is_ok());
}

#[test]
fn dense_run_looks_at_the_domain_before_it_bins() {
    let sites = vec![None, Some((0, 0)), Some((100, 0)), None];
    assert_eq!(
        bin_sites_dense(&sites, &options(2)).err(),
        Some(BinError::OutOfDomain { point: 2 })
    );
    let mut config = options(2);
    config.domain_policy = PointPolicy::RejectPoint;
    assert_eq!(
        bin_sites_dense(&sites, &config).err(),
        Some(BinError::MalformedPoint { point: 0 })
    );
    config.malformed_policy = PointPolicy::RejectPoint;
    let (_, stats) = bin_sites_dense(&sites, &config).unwrap();
    assert_eq!(
        stats,
        Stats { placed: 1, dropped: 0, malformed: 2, out_of_domain: 1, busiest: Some(((0, 0), 1)) }
    );
    config.domain_policy = PointPolicy::RejectRun;
    assert_eq!(
        bin_sites_dense(&sites, &config).err(),
        Some(BinError::OutOfDomain { point: 2 })
    );
}

#[test]
fn run_reports_the_first_point_without_a_cell_whatever_the_chunks() {
    let mut sites = vec![Some((1, 1)); 40];
    sites[17] = None;
    sites[33] = None;
    for workers in [1usize, 2, 3, 8, 40, 100] {
        assert_eq!(
            bin_sites_sparse(&sites, &options(workers)).err(),
            Some(BinError::MalformedPoint { point: 17 })
        );
        assert_eq!(
            bin_sites_dense(&sites, &options(workers)).err(),
            Some(BinError::MalformedPoint { point: 17 })
        );
    }
}

#[test]
fn points_of_finds_the_points_behind_the_ids() {
    let input = vec![(0.5, 1.5), (9.9, 9.9), (10.0, 10.0), (19.0, 19.0)];
    assert_eq!(points_of(&input, &vec![3, 1, 1]), Some(vec![(19.0, 19.0), (9.9, 9.9), (9.9, 9.9)]));
    assert_eq!(points_of(&input, &Vec::new()), Some(Vec::new()));
    assert_eq!(points_of(&input, &vec![0, 4]), None);
    assert_eq!(points_of(&Vec::<u8>::new(), &vec![0]), None);
    let points = vec![Point { x: 5, y: 5 }, Point { x: 15, y: 5 }, Point { x: 6, y: 6 }];
    let (store, _) = bin_sparse(&points, 10, &options(2)).unwrap();
    assert_eq!(
        points_of(&points, &store.bin((0, 0))),
        Some(vec![Point { x: 5, y: 5 }, Point { x: 6, y: 6 }])
    );
}
