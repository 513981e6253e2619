pub mod animation;
pub mod definition;
pub mod placed;
pub mod placement;
pub mod registry;
