//! Collision-free placement of an axis-aligned footprint on a rectangular sheet.
//!
//! Coordinates are integers in a fixed unit chosen by the caller.

pub mod rect;
pub mod placement;
pub mod spatial;
