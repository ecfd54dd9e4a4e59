//! Spatial core of a hex-tile world: axial hex coordinates mapped onto a dense
//! grid, recursive shadow-casting field of view, and a generational store for
//! entities that refer to each other by handle.

pub mod fov;
pub mod grid;
pub mod player;
pub mod store;
