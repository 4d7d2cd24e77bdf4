//! Derives a small ordered color palette from an image's pixels: opaque pixels
//! are sampled, clustered by k-means in linear color space, reduced to a palette
//! ordered by population, and searched for their darkest and lightest colors.

pub mod accel;
pub mod color;
pub mod error;
pub mod extremes;
pub mod kmeans;
pub mod pipeline;
pub mod reduce;
pub mod rng;
pub mod sampler;
pub mod theme;
