//! Plot numeric data: tick selection, bounds, and path geometry.
//!
//! The library chooses tick positions for integer and calendar-time axes,
//! computes the extent of plotted data, and decides how plotted points are
//! joined into path commands.

pub mod bounds;
pub mod build;
pub mod context_ext;
pub mod label;
pub mod render;
pub mod ticks;
pub mod timestamp;
