pub mod definition;
pub mod registry;
