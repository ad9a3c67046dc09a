//! Thermal colorization of scanner point clouds.
//!
//! The library assigns each 3-D point of a laser scan a best-estimate surface
//! temperature and a display color by projecting the point into the thermal
//! images that can see it, averaging the temperatures it finds there, and
//! assembling an enriched output point in the global coordinate frame.
//!
//! All quantities are carried as fixed-point integers: coordinates in
//! micrometers, temperatures in millidegrees, rotation-matrix entries and
//! pixel coordinates scaled by a power-of-two denominator. The contracts
//! state, over these representations, exactly which points are visible in
//! which images, what the aggregated temperature is, and what every output
//! point holds.

pub mod fixed;
pub mod frames;
pub mod camera;
pub mod binding;
pub mod aggregate;
pub mod attributes;
pub mod colorize;
pub mod config;
