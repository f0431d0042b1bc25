//! An animated map of a transit network: geographic coordinates are projected
//! onto a grid of tiles, stations and tracks are classified per tile, and
//! transient effects (trains, blinking stations) are advanced frame by frame.
//!
//! Angles are held in fixed point: one unit is a millionth of a degree.

pub mod constants;
pub mod data;
pub mod effect;
pub mod line;
pub mod map;
pub mod popularity;
pub mod route;
pub mod tile;
pub mod world;
