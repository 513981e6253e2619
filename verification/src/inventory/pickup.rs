use vstd::prelude::*;

use crate::inventory::components::{add_views, BagTarget, Inventory};
use crate::item::definition::ItemType;
use crate::item::registry::{item_ids, ItemRegistry};
use crate::name_index::is_last_index;

verus! {

/// The bag a picked-up item goes to first: blocks and materials to the
/// material bag, everything else to the main bag.
pub open spec fn pickup_bag(t: ItemType) -> BagTarget {
    match t {
        ItemType::Block | ItemType::Material => BagTarget::Material,
        _ => BagTarget::Main,
    }
}

/// The bag a picked-up item of type `t` goes to first (see `pickup_bag`).
pub fn pickup_target(t: ItemType) -> (b: BagTarget)
    ensures
        b == pickup_bag(t),
        b == BagTarget::Material <==> (t == ItemType::Block || t == ItemType::Material),
        b == BagTarget::Main <==> !(t == ItemType::Block || t == ItemType::Material),
{
    match t {
        ItemType::Block | ItemType::Material => BagTarget::Material,
        _ => BagTarget::Main,
    }
}

/// What became of a dropped stack that the player walked over.
#[derive(Clone, Copy, Debug, PartialEq, Eq, Structural)]
pub enum PickupOutcome {
    /// The item is not registered: the stack stays where it is.
    UnknownItem,
    /// The inventory had no room: the stack stays as it is.
    NoRoom,
    /// Part of the stack was taken; `left` items stay on the ground.
    Partial { picked: u16, left: u16 },
    /// The whole stack was taken.
    All { picked: u16 },
}

/// The outcome for a stack of `count` of which `remaining` did not fit.
pub open spec fn outcome_of(count: u16, remaining: u16) -> PickupOutcome {
    if remaining == 0 {
        PickupOutcome::All { picked: count }
    } else if remaining < count {
        PickupOutcome::Partial { picked: (count - remaining) as u16, left: remaining }
    } else {
        PickupOutcome::NoRoom
    }
}

/// Pick up a dropped stack of `count` items named `item_id`: look the item up,
/// and add the stack to its bag (blocks and materials to the material bag
/// first), stacked by the item's `max_stack`.
pub fn pick_up(inv: &mut Inventory, registry: &ItemRegistry, item_id: &str, count: u16) -> (o: PickupOutcome)
    ensures
        (forall|i: int| 0 <= i < registry.defs().len() ==> #[trigger] registry.defs()[i].id@ != item_id@)
            ==> o == PickupOutcome::UnknownItem && *final(inv) == *old(inv),
        forall|i: int| #[trigger] is_last_index(item_ids(registry.defs()), item_id@, i) ==> {
            let d = registry.defs()[i];
            let (m, t, r) = add_views(old(inv).main_view(), old(inv).material_view(), item_id@,
                count as nat, d.max_stack, pickup_bag(d.item_type));
            &&& final(inv).main_view() == m
            &&& final(inv).material_view() == t
            &&& 0 <= r <= count
            &&& o == outcome_of(count, r as u16)
            &&& final(inv).item_count(item_id@) == old(inv).item_count(item_id@) + count - r
        },
        final(inv).max_slots_base == old(inv).max_slots_base,
        final(inv).max_slots_bonus == old(inv).max_slots_bonus,
{
    let id = match registry.try_by_name(item_id) {
        Some(id) => id,
        None => return PickupOutcome::UnknownItem,
    };
    let def = registry.get(id);
    let target = pickup_target(def.item_type);
    let remaining = inv.try_add_item(item_id, count, def.max_stack, target);
    proof {
        assert forall|i: int| #[trigger] is_last_index(item_ids(registry.defs()), item_id@, i) implies i == id.0 as int by {
            if i < id.0 as int {
                assert(item_ids(registry.defs())[id.0 as int] == item_id@);
            } else if i > id.0 as int {
                assert(item_ids(registry.defs())[i] == item_id@);
            }
        }
    }
    if remaining == 0 {
        PickupOutcome::All { picked: count }
    } else if remaining < count {
        PickupOutcome::Partial { picked: count - remaining, left: remaining }
    } else {
        PickupOutcome::NoRoom
    }
}

/// Picking up never creates or loses items: what the inventory gained of the
/// item is what the outcome says was picked.
pub proof fn lemma_pickup_conserves(count: u16, remaining: u16)
    requires
        remaining <= count,
    ensures
        match outcome_of(count, remaining) {
            PickupOutcome::All { picked } => picked == count && remaining == 0,
            PickupOutcome::Partial { picked, left } => picked + left == count && left == remaining && left > 0,
            PickupOutcome::NoRoom => remaining == count,
            PickupOutcome::UnknownItem => false,
        },
{
}


/// Only blocks and materials go to the material bag first; resources, tools,
/// weapons, armour and consumables go to the main bag.
pub proof fn lemma_pickup_bag_routing(t: ItemType)
    ensures
        (pickup_bag(t) == BagTarget::Material) <==> (t == ItemType::Block || t == ItemType::Material),
        (t == ItemType::Resource || t == ItemType::Tool || t == ItemType::Weapon || t == ItemType::Armor
            || t == ItemType::Consumable) ==> pickup_bag(t) == BagTarget::Main,
{
}

} // verus!
