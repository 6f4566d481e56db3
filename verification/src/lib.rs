//! Verified core of a block-model visualizer: a column-oriented table of
//! block geometry and attributes is resolved into colored cuboid instances,
//! packed into fixed-capacity batches with per-batch bounding boxes, and the
//! boxes can be merged for camera framing.
//!
//! All world-space measures (coordinates, sizes, attribute values, gradient
//! positions) are fixed-point numbers: `i64` values in a unit chosen by the
//! caller, bounded by [`block::SCALAR_LIMIT`] so that the arithmetic of the
//! pipeline stays exact.

pub mod block;
pub mod bounds;
pub mod gradient;
pub mod model;
pub mod render;
pub mod table;
