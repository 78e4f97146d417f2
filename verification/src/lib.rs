//! Spatial-reasoning core of a 2D isometric point-and-click engine:
//! conversion between world-pixel space and a discrete walkability grid,
//! walkability rules over per-scene obstacle sets, A* pathfinding on the
//! 8-connected grid, bounded nearest-cell searches, and per-tick actor
//! movement along computed paths.

pub mod fixed;
pub mod cellmap;
pub mod grid;
pub mod pathfind;
pub mod search;
pub mod navigate;
pub mod character;
pub mod dialog;
pub mod audio;
