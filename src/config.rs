use vstd::prelude::*;

verus! {

/// Why an image configuration was refused.
#[derive(Debug, Clone, Copy, PartialEq, Eq, Structural)]
pub enum ConfigError {
    ZeroWidth,
    ZeroHeight,
    ZeroSamples,
}

/// The size of the image and the number of samples averaged per pixel.
#[derive(Debug, Clone, Copy, PartialEq, Eq, Structural)]
pub struct ImageConfig {
    pub width: u32,
    pub height: u32,
    pub samples_per_pixel: u32,
}

impl ImageConfig {
    pub open spec fn wf(self) -> bool {
        self.width > 0 && self.height > 0 && self.samples_per_pixel > 0
    }

    /// Checks a configuration before rendering; the first zero field, in the order
    /// width, height, samples, is reported.
    pub fn new(width: u32, height: u32, samples_per_pixel: u32) -> (r: Result<ImageConfig, ConfigError>)
        ensures
            width == 0 ==> r == Err::<ImageConfig, ConfigError>(ConfigError::ZeroWidth),
            width > 0 && height == 0 ==> r == Err::<ImageConfig, ConfigError>(ConfigError::ZeroHeight),
            width > 0 && height > 0 && samples_per_pixel == 0 ==> r == Err::<ImageConfig, ConfigError>(
                ConfigError::ZeroSamples,
            ),
            width > 0 && height > 0 && samples_per_pixel > 0 ==> r == Ok::<ImageConfig, ConfigError>(
                (ImageConfig { width, height, samples_per_pixel }),
            ),
            r is Ok ==> r->Ok_0.wf(),
    {
        if width == 0 {
            Err(ConfigError::ZeroWidth)
        } else if height == 0 {
            Err(ConfigError::ZeroHeight)
        } else if samples_per_pixel == 0 {
            Err(ConfigError::ZeroSamples)
        } else {
            Ok(ImageConfig { width, height, samples_per_pixel })
        }
    }
}

} // verus!
