use raytracer::config::{ConfigError, ImageConfig};

#[test]
fn valid_config_is_kept() {
    assert_eq!(
        ImageConfig::new(768, 486, 50),
        Ok(ImageConfig { width: 768, height: 486, samples_per_pixel: 50 })
    );
    assert_eq!(
        ImageConfig::new(1, 1, 1),
        Ok(ImageConfig { width: 1, height: 1, samples_per_pixel: 1 })
    );
}

#[test]
fn zero_width_is_refused() {
    assert_eq!(ImageConfig::new(0, 486, 50), Err(ConfigError::ZeroWidth));
    assert_eq!(ImageConfig::new(0, 0, 0), Err(ConfigError::ZeroWidth));
}

#[test]
fn zero_height_is_refused() {
    assert_eq!(ImageConfig::new(768, 0, 50), Err(ConfigError::ZeroHeight));
    assert_eq!(ImageConfig::new(768, 0, 0), Err(ConfigError::ZeroHeight));
}

#[test]
fn zero_samples_are_refused() {
    assert_eq!(ImageConfig::new(768, 486, 0), Err(ConfigError::ZeroSamples));
}
