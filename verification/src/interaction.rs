pub mod crack_overlay;
pub mod interactable;
pub mod block_action;
