//! Tracing and rasterizing a circle on the integer lattice.

pub mod circle;
pub mod error;
pub mod point;
pub mod raster;
pub mod shape;
pub mod trace;

pub use circle::Circle;
pub use error::ShapeError;
pub use point::Point2D;
pub use raster::rasterize;
pub use shape::{Shape2D, Strategy};
