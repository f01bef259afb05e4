use mandelbrot::config::{check_config, ConfigError, ONE_BITS};

fn check(x_res: u32, y_res: u32, zoom: f64, threshold: f64) -> Result<(), ConfigError> {
    check_config(x_res, y_res, zoom.to_bits(), threshold.to_bits())
}

#[test]
fn a_sound_configuration_is_accepted() {
    assert_eq!(check(1000, 1000, 300.0, 2.0), Ok(()));
    assert_eq!(check(1, 1, f64::MIN_POSITIVE, 1.0000000000000002), Ok(()));
    assert_eq!(check(u32::MAX, u32::MAX, f64::INFINITY, f64::INFINITY), Ok(()));
}

#[test]
fn a_grid_without_cells_is_an_invalid_resolution() {
    assert_eq!(check(0, 10, 1.0, 2.0), Err(ConfigError::InvalidResolution));
    assert_eq!(check(10, 0, 1.0, 2.0), Err(ConfigError::InvalidResolution));
    assert_eq!(check(0, 0, 1.0, 2.0), Err(ConfigError::InvalidResolution));
}

#[test]
fn a_zoom_that_is_not_above_zero_is_invalid() {
    assert_eq!(check(3, 3, 0.0, 2.0), Err(ConfigError::InvalidZoom));
    assert_eq!(check(3, 3, -0.0, 2.0), Err(ConfigError::InvalidZoom));
    assert_eq!(check(3, 3, -1.0, 2.0), Err(ConfigError::InvalidZoom));
    assert_eq!(check(3, 3, f64::NEG_INFINITY, 2.0), Err(ConfigError::InvalidZoom));
    assert_eq!(check(3, 3, f64::NAN, 2.0), Err(ConfigError::InvalidZoom));
}

#[test]
fn a_threshold_that_is_not_above_one_is_invalid() {
    assert_eq!(check(3, 3, 1.0, 1.0), Err(ConfigError::InvalidThreshold));
    assert_eq!(check(3, 3, 1.0, 0.5), Err(ConfigError::InvalidThreshold));
    assert_eq!(check(3, 3, 1.0, 0.0), Err(ConfigError::InvalidThreshold));
    assert_eq!(check(3, 3, 1.0, -2.0), Err(ConfigError::InvalidThreshold));
    assert_eq!(check(3, 3, 1.0, f64::NAN), Err(ConfigError::InvalidThreshold));
}

#[test]
fn the_first_fault_is_the_one_named() {
    assert_eq!(check(0, 3, -1.0, 0.5), Err(ConfigError::InvalidResolution));
    assert_eq!(check(3, 3, -1.0, 0.5), Err(ConfigError::InvalidZoom));
}

#[test]
fn one_bits_is_the_double_one() {
    assert_eq!(ONE_BITS, 1.0f64.to_bits());
}
