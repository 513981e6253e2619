use vstd::prelude::*;

use crate::inventory::components::{add_views, take_views, BagTarget, Inventory, SlotView};
use crate::item::definition::{lemma_slot_position_injective, slot_position, EquipmentSlot};

verus! {

/// 1 when the slot content is item `x`, else 0.
pub open spec fn holds(e: Option<Seq<char>>, x: Seq<char>) -> nat {
    if e == Some(x) { 1 } else { 0 }
}

fn copy_id(s: &String) -> (r: String)
    ensures
        r@ == s@,
{
    s.clone()
}

/// Player equipment: one optional item per equipment slot.
#[derive(Debug)]
pub struct Equipment {
    slots: [Option<String>; 15],
}

impl Equipment {
    /// The item equipped in a slot, if any.
    pub closed spec fn equipped(self, slot: EquipmentSlot) -> Option<Seq<char>> {
        match self.slots@[slot_position(slot)] {
            Some(s) => Some(s@),
            None => None,
        }
    }

    pub fn new() -> (e: Self)
        ensures
            forall|slot: EquipmentSlot| #[trigger] e.equipped(slot) is None,
    {
        let slots: [Option<String>; 15] = [
            None, None, None, None, None, None, None, None, None, None, None, None, None, None, None,
        ];
        let e = Equipment { slots };
        proof {
            assert forall|slot: EquipmentSlot| #[trigger] e.equipped(slot) is None by {
                lemma_slot_position_injective(slot, slot);
            }
        }
        e
    }

    pub fn get(&self, slot: EquipmentSlot) -> (r: Option<&String>)
        ensures
            match r {
                Some(s) => self.equipped(slot) == Some(s@),
                None => self.equipped(slot) is None,
            },
    {
        match &self.slots[slot.index()] {
            Some(s) => Some(s),
            None => None,
        }
    }

    /// Low-level equip (sets slot directly, no inventory interaction).
    pub fn equip(&mut self, slot: EquipmentSlot, item_id: String)
        ensures
            final(self).equipped(slot) == Some(item_id@),
            forall|other: EquipmentSlot|
                other != slot ==> #[trigger] final(self).equipped(other) == old(self).equipped(other),
    {
        let i = slot.index();
        self.slots[i] = Some(item_id);
        proof {
            assert forall|other: EquipmentSlot| other != slot implies
                #[trigger] self.equipped(other) == old(self).equipped(other) by {
                lemma_slot_position_injective(other, slot);
            }
        }
    }

    /// Low-level unequip (clears slot, returns the item that was there).
    pub fn unequip(&mut self, slot: EquipmentSlot) -> (r: Option<String>)
        ensures
            match r {
                Some(s) => old(self).equipped(slot) == Some(s@),
                None => old(self).equipped(slot) is None,
            },
            final(self).equipped(slot) is None,
            forall|other: EquipmentSlot|
                other != slot ==> #[trigger] final(self).equipped(other) == old(self).equipped(other),
    {
        let i = slot.index();
        let previous = match &self.slots[i] {
            Some(s) => Some(copy_id(s)),
            None => None,
        };
        self.slots[i] = None;
        proof {
            assert forall|other: EquipmentSlot| other != slot implies
                #[trigger] self.equipped(other) == old(self).equipped(other) by {
                lemma_slot_position_injective(other, slot);
            }
        }
        previous
    }

    /// Equip an item from the inventory: removes one from the inventory and
    /// places it in the slot. A different item already in the slot goes back
    /// to the main bag (as a non-stackable item). Returns false, changing
    /// nothing, when the item is not in the inventory or the old item does not fit.
    pub fn equip_from_inventory(&mut self, slot: EquipmentSlot, item_id: &str, inventory: &mut Inventory) -> (ok: bool)
        requires
            old(inventory).item_count(item_id@) <= u32::MAX,
        ensures
            ({
                let id = item_id@;
                let main0 = old(inventory).main_view();
                let mat0 = old(inventory).material_view();
                let unchanged = final(self).equipped(slot) == old(self).equipped(slot)
                    && final(inventory).main_view() == main0
                    && final(inventory).material_view() == mat0;
                if old(inventory).item_count(id) == 0 {
                    !ok && unchanged
                } else if old(self).equipped(slot) == Some(id) {
                    ok && unchanged
                } else if old(self).equipped(slot) is None {
                    let (m, t) = take_views(main0, mat0, id, 1);
                    &&& ok
                    &&& final(self).equipped(slot) == Some(id)
                    &&& final(inventory).main_view() == m
                    &&& final(inventory).material_view() == t
                } else {
                    let (m1, t1, r1) = add_views(main0, mat0, old(self).equipped(slot).unwrap(), 1, 1, BagTarget::Main);
                    let (m, t) = take_views(m1, t1, id, 1);
                    if r1 > 0 {
                        !ok && unchanged
                    } else {
                        &&& ok
                        &&& final(self).equipped(slot) == Some(id)
                        &&& final(inventory).main_view() == m
                        &&& final(inventory).material_view() == t
                    }
                }
            }),
            ok ==> final(self).equipped(slot) == Some(item_id@),
            ok ==> forall|x: Seq<char>|
                #[trigger] final(inventory).item_count(x) + holds(final(self).equipped(slot), x)
                    == old(inventory).item_count(x) + holds(old(self).equipped(slot), x),
            forall|other: EquipmentSlot|
                other != slot ==> #[trigger] final(self).equipped(other) == old(self).equipped(other),
            final(inventory).main_bag@.len() == old(inventory).main_bag@.len(),
            final(inventory).material_bag@.len() == old(inventory).material_bag@.len(),
            final(inventory).max_slots_base == old(inventory).max_slots_base,
            final(inventory).max_slots_bonus == old(inventory).max_slots_bonus,
    {
        if inventory.count_item(item_id) == 0 {
            return false;
        }
        let ghost id = item_id@;
        // Already equipped: nothing to do.
        let current: Option<String> = match self.get(slot) {
            Some(s) => Some(copy_id(s)),
            None => None,
        };
        match current {
            Some(old_id) => {
                if same_str(&old_id, item_id) {
                    return true;
                }
                // Put the old item back (non-stackable equipment, main bag).
                let remaining = inventory.try_add_item(old_id.as_str(), 1, 1, BagTarget::Main);
                if remaining > 0 {
                    return false;
                }
                assert(old_id@ != id);
                assert(inventory.item_count(id) == old(inventory).item_count(id));
            },
            None => {},
        }
        let removed = inventory.remove_item(item_id, 1);
        assert(removed);
        self.equip(slot, item_id.to_owned());
        true
    }

    /// Unequip an item and return it to the main bag. Returns false, changing
    /// nothing, when the slot is empty or the inventory has no room.
    pub fn unequip_to_inventory(&mut self, slot: EquipmentSlot, inventory: &mut Inventory) -> (ok: bool)
        ensures
            ({
                let main0 = old(inventory).main_view();
                let mat0 = old(inventory).material_view();
                let unchanged = final(self).equipped(slot) == old(self).equipped(slot)
                    && final(inventory).main_view() == main0
                    && final(inventory).material_view() == mat0;
                match old(self).equipped(slot) {
                    None => !ok && unchanged,
                    Some(o) => {
                        let (m, t, r) = add_views(main0, mat0, o, 1, 1, BagTarget::Main);
                        if r > 0 {
                            !ok && unchanged
                        } else {
                            &&& ok
                            &&& final(self).equipped(slot) is None
                            &&& final(inventory).main_view() == m
                            &&& final(inventory).material_view() == t
                        }
                    },
                }
            }),
            forall|x: Seq<char>|
                #[trigger] final(inventory).item_count(x) + holds(final(self).equipped(slot), x)
                    == old(inventory).item_count(x) + holds(old(self).equipped(slot), x),
            forall|other: EquipmentSlot|
                other != slot ==> #[trigger] final(self).equipped(other) == old(self).equipped(other),
            final(inventory).main_bag@.len() == old(inventory).main_bag@.len(),
            final(inventory).material_bag@.len() == old(inventory).material_bag@.len(),
            final(inventory).max_slots_base == old(inventory).max_slots_base,
            final(inventory).max_slots_bonus == old(inventory).max_slots_bonus,
    {
        let item_id = match self.unequip(slot) {
            Some(s) => s,
            None => return false,
        };
        let remaining = inventory.try_add_item(item_id.as_str(), 1, 1, BagTarget::Main);
        if remaining > 0 {
            // Inventory full: put the item back.
            self.equip(slot, item_id);
            return false;
        }
        true
    }
}

impl Default for Equipment {
    fn default() -> (e: Equipment)
        ensures
            forall|slot: EquipmentSlot| #[trigger] e.equipped(slot) is None,
    {
        Equipment::new()
    }
}

/// Compare an owned item id with a borrowed one.
fn same_str(a: &String, b: &str) -> (r: bool)
    ensures
        r == (a@ == b@),
{
    let owned: String = b.to_owned();
    a.eq(&owned)
}

} // verus!
