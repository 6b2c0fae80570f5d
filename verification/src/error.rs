//! Why a configuration is rejected.

use vstd::prelude::*;

verus! {

/// A parameter outside the range in which the renderer produces an image.
#[derive(Clone, Copy, Debug, PartialEq, Eq, Structural)]
pub enum ConfigError {
    /// A sphere must have a positive radius.
    NonPositiveRadius,
    /// A pixel must be sampled at least once.
    NoSamples,
    /// A ray must be allowed at least one bounce.
    NoDepth,
    /// An image must not have more pixels than `MAX_PIXELS`.
    ImageTooLarge,
}

impl ConfigError {
    /// A sentence that names the parameter and the range it must lie in.
    pub fn message(&self) -> (r: String)
        ensures
            r@ == (match *self {
                ConfigError::NonPositiveRadius => "the radius of a sphere must be positive"@,
                ConfigError::NoSamples => "the number of samples per pixel must be positive"@,
                ConfigError::NoDepth => "the maximum depth must be positive"@,
                ConfigError::ImageTooLarge => "the image has too many pixels"@,
            }),
    {
        match self {
            ConfigError::NonPositiveRadius => "the radius of a sphere must be positive".to_owned(),
            ConfigError::NoSamples => "the number of samples per pixel must be positive".to_owned(),
            ConfigError::NoDepth => "the maximum depth must be positive".to_owned(),
            ConfigError::ImageTooLarge => "the image has too many pixels".to_owned(),
        }
    }
}

} // verus!
