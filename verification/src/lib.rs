//! Estimation of the true 3D surface area of a region on Earth described by a
//! closed polygon, by draping the polygon over a digital elevation model and
//! summing the 3D areas of the resulting elevation facets.
//!
//! All geometry is carried in fixed-point integers: geographic coordinates in
//! grid units of 1/432000 degree, metric (projected) coordinates and
//! elevations in centimeters. The contracts are stated over these exact
//! integer models.

pub mod math;
pub mod point;
pub mod text;
pub mod hgt;
pub mod mercator;
pub mod dataset;
pub mod polygon;
pub mod triangulation;
pub mod intersection;
pub mod surface;
