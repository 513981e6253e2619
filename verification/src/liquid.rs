pub mod data;
pub mod debug;
pub mod field;
pub mod reactions;
pub mod registry;
pub mod sleep;
