use vstd::prelude::*;

use crate::inventory::components::InventorySlot;
use crate::object::definition::{ObjectId, ObjectType};

verus! {

/// Reference from an occupancy grid cell to the object that occupies it.
#[derive(Debug, Clone, Copy)]
pub struct OccupancyRef {
    pub object_index: u16,
    pub is_anchor: bool,
}

/// State of a placed object (varies by object type).
#[derive(Debug)]
pub enum ObjectState {
    Default,
    Container { contents: Vec<Option<InventorySlot>> },
}

impl ObjectState {
    /// The state a freshly placed object of the given type starts in:
    /// a container gets one empty slot per container slot.
    pub fn initial_for(object_type: &ObjectType) -> (s: ObjectState)
        ensures
            match *object_type {
                ObjectType::Container { slots } => s matches ObjectState::Container { contents }
                    && contents@.len() == slots
                    && forall|i: int| 0 <= i < slots ==> #[trigger] contents@[i] is None,
                _ => s is Default,
            },
    {
        match object_type {
            ObjectType::Container { slots } => {
                let n = *slots as usize;
                let mut contents: Vec<Option<InventorySlot>> = Vec::new();
                let mut k: usize = 0;
                while k < n
                    invariant
                        k <= n,
                        contents@.len() == k,
                        forall|i: int| 0 <= i < k ==> #[trigger] contents@[i] is None,
                    decreases n - k,
                {
                    contents.push(None);
                    k = k + 1;
                }
                ObjectState::Container { contents }
            },
            _ => ObjectState::Default,
        }
    }
}

impl Default for ObjectState {
    fn default() -> (s: ObjectState)
        ensures
            s is Default,
    {
        ObjectState::Default
    }
}

/// A single object placed in a chunk.
#[derive(Debug)]
pub struct PlacedObject {
    pub object_id: ObjectId,
    pub local_x: u32,
    pub local_y: u32,
    pub state: ObjectState,
}

} // verus!
