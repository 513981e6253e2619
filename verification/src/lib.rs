pub mod fluid;
pub mod interaction;
pub mod inventory;
pub mod item;
pub mod liquid;
pub mod math;
pub mod name_index;
pub mod object;
pub mod tile_set;
