use buddhabrot::config::{Config, ConfigError, SamplingRegion};

fn region(re: (f64, f64), im: (f64, f64)) -> SamplingRegion {
    SamplingRegion {
        real_range: (re.0.to_bits(), re.1.to_bits()),
        imaginary_range: (im.0.to_bits(), im.1.to_bits()),
    }
}

fn sound() -> Config {
    Config {
        sampling: region((-2.0, 1.0), (-1.4, 1.4)),
        grid: region((-2.0, 2.0), (-2.0, 2.0)),
        limit: 12000,
        bailout: 4.0f64.to_bits(),
        min_iterations: 5,
        batch_size: 5000,
        target: 100000,
        save_interval: 10000,
        resolution: (1920, 1080),
        workers: 4,
        base_seed: 1988,
    }
}

#[test]
fn sound_configuration_is_accepted() {
    assert_eq!(sound().validate(), Ok(()));
}

#[test]
fn resolution_without_columns_or_rows_is_refused() {
    let mut c = sound();
    c.resolution = (0, 1080);
    assert_eq!(c.validate(), Err(ConfigError::ZeroResolution));
    c.resolution = (1920, 0);
    assert_eq!(c.validate(), Err(ConfigError::ZeroResolution));
    c.resolution = (0, 0);
    assert_eq!(c.validate(), Err(ConfigError::ZeroResolution));
    c.resolution = (1, 1);
    assert_eq!(c.validate(), Ok(()));
}

#[test]
fn inverted_sampling_range_is_refused() {
    let mut c = sound();
    c.sampling = region((1.0, -2.0), (-1.4, 1.4));
    assert_eq!(c.validate(), Err(ConfigError::InvertedSamplingRange));
    c.sampling = region((-2.0, 1.0), (1.4, -1.4));
    assert_eq!(c.validate(), Err(ConfigError::InvertedSamplingRange));
}

#[test]
fn empty_range_is_refused() {
    let mut c = sound();
    c.sampling = region((1.0, 1.0), (-1.4, 1.4));
    assert_eq!(c.validate(), Err(ConfigError::InvertedSamplingRange));
    c.sampling = region((-0.0, 0.0), (-1.4, 1.4));
    assert_eq!(c.validate(), Err(ConfigError::InvertedSamplingRange));
}

#[test]
fn range_bounded_by_nan_is_refused() {
    let mut c = sound();
    c.sampling = region((f64::NAN, 1.0), (-1.4, 1.4));
    assert_eq!(c.validate(), Err(ConfigError::InvertedSamplingRange));
    c.sampling = region((-2.0, 1.0), (-1.4, f64::NAN));
    assert_eq!(c.validate(), Err(ConfigError::InvertedSamplingRange));
}

#[test]
fn inverted_grid_range_is_refused() {
    let mut c = sound();
    c.grid = region((2.0, -2.0), (-2.0, 2.0));
    assert_eq!(c.validate(), Err(ConfigError::InvertedGridRange));
    c.grid = region((-2.0, 2.0), (2.0, 2.0));
    assert_eq!(c.validate(), Err(ConfigError::InvertedGridRange));
}

#[test]
fn faults_are_reported_in_a_fixed_order() {
    let mut c = sound();
    c.grid = region((2.0, -2.0), (-2.0, 2.0));
    c.sampling = region((1.0, -2.0), (-1.4, 1.4));
    assert_eq!(c.validate(), Err(ConfigError::InvertedSamplingRange));
    c.resolution = (0, 0);
    assert_eq!(c.validate(), Err(ConfigError::ZeroResolution));
}

#[test]
fn region_order_follows_the_numbers() {
    assert!(region((-2.0, 1.0), (-1.4, 1.4)).is_in_order());
    assert!(region((-2.0, -1.0), (1.0, 1.5)).is_in_order());
    assert!(region((f64::NEG_INFINITY, f64::INFINITY), (0.0, 1.0e-300)).is_in_order());
    assert!(!region((-1.0, -2.0), (-1.4, 1.4)).is_in_order());
    assert!(!region((-2.0, 1.0), (0.0, -0.0)).is_in_order());
}

#[test]
fn worker_seeds_follow_the_base_seed() {
    let c = sound();
    assert_eq!(c.worker_seed(0), Some(1988));
    assert_eq!(c.worker_seed(1), Some(1989));
    assert_eq!(c.worker_seed(3), Some(1991));
}

#[test]
fn worker_seed_beyond_the_last_seed_is_none() {
    let mut c = sound();
    c.base_seed = u64::MAX - 1;
    assert_eq!(c.worker_seed(1), Some(u64::MAX));
    assert_eq!(c.worker_seed(2), None);
}

#[test]
fn components_take_their_parameters_from_the_configuration() {
    let c = sound();
    let b = c.new_batch();
    assert_eq!(b.probed(), 0);
    assert!(!b.is_complete());
    let a = c.new_aggregator();
    assert_eq!(a.target, 100000);
    assert_eq!(a.save_interval, 10000);
    assert_eq!(a.next_save, Some(10000));
    assert_eq!(a.record_above, 1200);
    let h = c.new_histogram();
    assert_eq!(h.resolution_x(), 1920);
    assert_eq!(h.resolution_y(), 1080);
    assert_eq!(h.data().len(), 1920 * 1080);
}
