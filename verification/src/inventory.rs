pub mod components;
pub mod equipment;
pub mod hotbar;
pub mod pickup;
