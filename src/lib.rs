//! Colour quantisation by k-means clustering over RGB vectors.
//!
//! `color` holds the colour type and its distance, `model` the mathematical
//! description of a clustering run, `kmeans` the executable centroid set and
//! `laws` the properties proved of all runs.

pub mod color;
pub mod model;
pub mod kmeans;
pub mod laws;

pub use color::{Color, Dist, euclidi};
pub use kmeans::{KMeans, KMeansError, run};
