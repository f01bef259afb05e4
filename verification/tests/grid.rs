use mandelbrot::config::ConfigError;
use mandelbrot::grid::{fill_column, sample_grid, SampleResult};
use std::sync::atomic::{AtomicUsize, Ordering};

/// Samples with a zoom of 300 and a threshold of 2.
fn sample<F: Fn(u32, u32) -> Option<u64> + Sync>(
    x_res: u32,
    y_res: u32,
    worker_count: u32,
    sampler: &F,
) -> Result<SampleResult, ConfigError> {
    sample_grid(x_res, y_res, 300.0f64.to_bits(), 2.0f64.to_bits(), worker_count, sampler)
}

fn pattern(x: u32, y: u32) -> Option<u64> {
    if (x + y) % 3 == 0 {
        None
    } else {
        Some(1000 * x as u64 + y as u64)
    }
}

fn assert_sampled(data: &SampleResult, x_res: u32, y_res: u32) {
    assert_eq!(data.x_res, x_res);
    assert_eq!(data.y_res, y_res);
    assert_eq!(data.grid.len(), x_res as usize);
    for x in 0..x_res {
        assert_eq!(data.grid[x as usize].len(), y_res as usize);
        for y in 0..y_res {
            assert_eq!(data.grid[x as usize][y as usize], pattern(x, y), "cell ({x}, {y})");
        }
    }
}

#[test]
fn sample_grid_fills_every_cell_of_the_grid() {
    let data = sample(7, 5, 2, &pattern).unwrap();
    assert_sampled(&data, 7, 5);
}

#[test]
fn sample_grid_keeps_columns_and_rows_apart() {
    let data = sample(2, 3, 1, &|x, y| Some(10 * x as u64 + y as u64)).unwrap();
    assert_eq!(
        data.grid,
        vec![vec![Some(0), Some(1), Some(2)], vec![Some(10), Some(11), Some(12)]]
    );
}

#[test]
fn sample_grid_of_one_cell() {
    let data = sample(1, 1, 4, &|_, _| Some(42)).unwrap();
    assert_eq!((data.x_res, data.y_res), (1, 1));
    assert_eq!(data.grid, vec![vec![Some(42)]]);
}

#[test]
fn sample_grid_turns_down_a_grid_without_cells() {
    assert!(matches!(sample(0, 5, 1, &pattern), Err(ConfigError::InvalidResolution)));
    assert!(matches!(sample(5, 0, 1, &pattern), Err(ConfigError::InvalidResolution)));
    assert!(matches!(sample(0, 0, 0, &pattern), Err(ConfigError::InvalidResolution)));
}

#[test]
fn sample_grid_turns_down_a_zoom_that_is_not_above_zero() {
    for zoom in [0.0, -0.0, -300.0, f64::NAN, f64::NEG_INFINITY] {
        let result = sample_grid(4, 4, zoom.to_bits(), 2.0f64.to_bits(), 1, &pattern);
        assert!(matches!(result, Err(ConfigError::InvalidZoom)), "zoom {zoom}");
    }
}

#[test]
fn sample_grid_turns_down_a_threshold_that_is_not_above_one() {
    for threshold in [1.0, 0.999, 0.0, -2.0, f64::NAN] {
        let result = sample_grid(4, 4, 300.0f64.to_bits(), threshold.to_bits(), 1, &pattern);
        assert!(matches!(result, Err(ConfigError::InvalidThreshold)), "threshold {threshold}");
    }
}

#[test]
fn sample_grid_names_the_first_fault() {
    let nan = f64::NAN.to_bits();
    let no_cells = sample_grid(0, 4, nan, nan, 1, &pattern);
    assert!(matches!(no_cells, Err(ConfigError::InvalidResolution)));
    let no_zoom = sample_grid(4, 4, nan, nan, 1, &pattern);
    assert!(matches!(no_zoom, Err(ConfigError::InvalidZoom)));
}

#[test]
fn sample_grid_takes_any_zoom_above_zero_and_any_threshold_above_one() {
    let smallest = (5.0e-324f64.to_bits(), 1.0000000000000002f64.to_bits());
    let data = sample_grid(2, 2, smallest.0, smallest.1, 1, &pattern);
    assert_sampled(&data.unwrap(), 2, 2);
    let data = sample_grid(2, 2, f64::INFINITY.to_bits(), f64::INFINITY.to_bits(), 1, &pattern);
    assert_sampled(&data.unwrap(), 2, 2);
}

#[test]
fn sample_grid_does_not_sample_a_grid_it_turns_down() {
    let calls = AtomicUsize::new(0);
    let counting = |_: u32, _: u32| {
        calls.fetch_add(1, Ordering::Relaxed);
        None
    };
    assert!(sample(0, 9, 2, &counting).is_err());
    assert!(sample_grid(9, 9, 0, 2.0f64.to_bits(), 2, &counting).is_err());
    assert!(sample_grid(9, 9, 300.0f64.to_bits(), 0, 2, &counting).is_err());
    assert_eq!(calls.load(Ordering::Relaxed), 0);
}

#[test]
fn sample_grid_samples_each_cell_once() {
    let calls = AtomicUsize::new(0);
    let counting = |x: u32, y: u32| {
        calls.fetch_add(1, Ordering::Relaxed);
        pattern(x, y)
    };
    let data = sample(13, 11, 3, &counting).unwrap();
    assert_sampled(&data, 13, 11);
    assert_eq!(calls.load(Ordering::Relaxed), 13 * 11);
}

#[test]
fn one_worker_and_eight_workers_give_the_same_grid() {
    let one = sample(40, 30, 1, &pattern).unwrap();
    let eight = sample(40, 30, 8, &pattern).unwrap();
    assert_eq!(one.grid, eight.grid);
    assert_eq!((one.x_res, one.y_res), (eight.x_res, eight.y_res));
    assert_sampled(&eight, 40, 30);
}

#[test]
fn without_workers_the_grid_is_sampled_all_the_same() {
    let data = sample(6, 4, 0, &pattern).unwrap();
    assert_sampled(&data, 6, 4);
}

#[test]
fn a_sampler_that_never_escapes_gives_a_grid_of_none() {
    let data = sample(3, 3, 2, &|_, _| None).unwrap();
    assert_eq!(data.grid, vec![vec![None; 3]; 3]);
}

#[test]
fn fill_column_samples_top_to_bottom() {
    let mut column = vec![None; 4];
    fill_column(&mut column, 9, &|x, y| Some((x * 100 + y) as u64));
    assert_eq!(column, vec![Some(900), Some(901), Some(902), Some(903)]);
    let mut empty: Vec<Option<u64>> = Vec::new();
    fill_column(&mut empty, 0, &|_, _| Some(1));
    assert!(empty.is_empty());
}
