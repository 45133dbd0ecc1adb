//! The grid, its cells and the neighbourhood topologies.

pub mod point;
pub mod neighbourhood;
pub mod grid_2d;
pub mod apoint;
