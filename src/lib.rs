//! Live-preview synchronization for directories of markdown documents:
//! workspace registry, path confinement, change notification decisions,
//! remote-control commands and page data for the viewer.

pub mod text;
pub mod path;
pub mod confine;
pub mod workspace;
pub mod bus;
pub mod page;
pub mod render;
pub mod listing;
