//! Coordinates and the things that stand at one.

pub mod point;
pub mod vpoint;
pub mod apoint;

pub use apoint::APoint;
pub use point::{IsPoint, Point};
pub use vpoint::VPoint;
