use mandelbrot::config::{Config, ConfigError};
use mandelbrot::order::ScanOrder;

#[test]
fn default_is_the_standard_benchmark() {
    let config = Config::default();
    assert_eq!(config.width, 1000);
    assert_eq!(config.height, 1000);
    assert_eq!(config.max_iter, 256);
    assert_eq!(config.trials, 1);
    assert_eq!(config.order, ScanOrder::RowMajor);
    assert_eq!(config.validate(), Ok(()));
}

#[test]
fn new_plans_one_row_major_trial() {
    let config = Config::new(7, 5, 99);
    assert_eq!(
        config,
        Config { width: 7, height: 5, max_iter: 99, trials: 1, order: ScanOrder::RowMajor }
    );
}

#[test]
fn zero_width_is_rejected() {
    assert_eq!(Config::new(0, 10, 256).validate(), Err(ConfigError::ZeroWidth));
}

#[test]
fn zero_height_is_rejected() {
    assert_eq!(Config::new(10, 0, 256).validate(), Err(ConfigError::ZeroHeight));
}

#[test]
fn zero_width_is_named_before_zero_height() {
    assert_eq!(Config::new(0, 0, 256).validate(), Err(ConfigError::ZeroWidth));
}

#[test]
fn grid_beyond_the_index_range_is_rejected() {
    assert_eq!(Config::new(usize::MAX, 2, 0).validate(), Err(ConfigError::GridTooLarge));
    assert_eq!(Config::new(2, usize::MAX, 1).validate(), Err(ConfigError::GridTooLarge));
}

#[test]
fn checksum_beyond_64_bits_is_rejected() {
    assert_eq!(Config::new(2, 1, u64::MAX).validate(), Err(ConfigError::ChecksumTooLarge));
    assert_eq!(Config::new(1 << 10, 1 << 10, 1 << 44).validate(), Err(ConfigError::ChecksumTooLarge));
}

#[test]
fn largest_checksum_that_fits_is_accepted() {
    assert_eq!(Config::new(1, 1, u64::MAX).validate(), Ok(()));
    assert_eq!(Config::new(1 << 10, 1 << 10, (1 << 44) - 1).validate(), Ok(()));
    assert_eq!(Config::new(3, 5, u64::MAX / 15).validate(), Ok(()));
    assert_eq!(Config::new(3, 5, u64::MAX / 15 + 1).validate(), Err(ConfigError::ChecksumTooLarge));
}

#[test]
fn zero_iterations_and_zero_trials_are_accepted() {
    let config = Config { width: 4, height: 3, max_iter: 0, trials: 0, order: ScanOrder::ColumnMajor };
    assert_eq!(config.validate(), Ok(()));
}
