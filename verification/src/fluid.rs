pub mod active;
pub mod cell;
pub mod debug_overlay;
pub mod debug_tool;
pub mod definition;
pub mod detectors;
pub mod displacement;
pub mod reactions;
pub mod registry;
pub mod world;
