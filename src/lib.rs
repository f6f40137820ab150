//! Movement, camera and terrain-grid logic of a first-person terrain viewer.
//!
//! All quantities are fixed point: lengths in micro-units, angles in
//! millidegrees, direction components in thousandths, times in microseconds.

pub mod fixed;
pub mod frame;
pub mod input;
pub mod player;
pub mod transforms;
pub mod vector;
pub mod vertex_data;
