use starbeam::inventory::components::{BagTarget, Inventory, InventorySlot, Stack};
use starbeam::inventory::equipment::Equipment;
use starbeam::inventory::hotbar::Hotbar;
use starbeam::item::definition::EquipmentSlot;

#[test]
fn inventory_slot_tracks_item_and_count() {
    let slot = InventorySlot { item_id: "dirt".into(), count: 50 };

    assert_eq!(slot.item_id, "dirt");
    assert_eq!(slot.count, 50);
}

#[test]
fn inventory_starts_empty() {
    let inv = Inventory::new();

    assert_eq!(inv.main_bag.len(), 40);
    assert_eq!(inv.material_bag.len(), 40);
    assert!(inv.main_bag.iter().all(|s| s.is_none()));
}

#[test]
fn inventory_total_slots_includes_bonus() {
    let mut inv = Inventory::new();
    assert_eq!(inv.total_slots(), 40);

    inv.max_slots_bonus = 10;
    assert_eq!(inv.total_slots(), 50);
}

#[test]
fn try_add_item_to_empty_main_bag() {
    let mut inv = Inventory::new();
    let remaining = inv.try_add_item("dirt", 10, 999, BagTarget::Main);

    assert_eq!(remaining, 0);
    assert!(inv.main_bag[0].is_some());
    assert_eq!(inv.main_bag[0].as_ref().unwrap().count, 10);
}

#[test]
fn try_add_item_to_material_bag() {
    let mut inv = Inventory::new();
    let remaining = inv.try_add_item("dirt", 10, 999, BagTarget::Material);

    assert_eq!(remaining, 0);
    assert!(inv.material_bag[0].is_some());
    assert_eq!(inv.material_bag[0].as_ref().unwrap().count, 10);
    assert!(inv.main_bag.iter().all(|s| s.is_none()));
}

#[test]
fn try_add_item_overflows_to_other_bag() {
    let mut inv = Inventory::new();
    for slot in inv.material_bag.iter_mut() {
        *slot = Some(InventorySlot { item_id: "stone".into(), count: 999 });
    }
    let remaining = inv.try_add_item("dirt", 10, 999, BagTarget::Material);
    assert_eq!(remaining, 0);
    assert_eq!(inv.main_bag[0].as_ref().unwrap().item_id, "dirt");
}

#[test]
fn try_add_item_stacks_into_existing() {
    let mut inv = Inventory::new();
    inv.main_bag[0] = Some(InventorySlot { item_id: "dirt".into(), count: 50 });

    let remaining = inv.try_add_item("dirt", 30, 999, BagTarget::Main);

    assert_eq!(remaining, 0);
    assert_eq!(inv.main_bag[0].as_ref().unwrap().count, 80);
}

#[test]
fn try_add_item_respects_max_stack() {
    let mut inv = Inventory::new();
    inv.main_bag[0] = Some(InventorySlot { item_id: "dirt".into(), count: 990 });

    let remaining = inv.try_add_item("dirt", 20, 999, BagTarget::Main);

    assert_eq!(remaining, 0);
    assert_eq!(inv.main_bag[0].as_ref().unwrap().count, 999);
    assert_eq!(inv.main_bag[1].as_ref().unwrap().count, 11);
}

#[test]
fn try_add_item_creates_new_slot_when_full() {
    let mut inv = Inventory::new();
    inv.main_bag[0] = Some(InventorySlot { item_id: "dirt".into(), count: 999 });

    let remaining = inv.try_add_item("dirt", 10, 999, BagTarget::Main);

    assert_eq!(remaining, 0);
    assert_eq!(inv.main_bag[1].as_ref().unwrap().count, 10);
}

#[test]
fn stack_default_is_empty() {
    let stack = Stack::default();
    assert_eq!(stack.item_id, "");
    assert_eq!(stack.count, 0);
}

#[test]
fn stack_equality() {
    let a = Stack { item_id: "dirt".into(), count: 10 };
    let b = Stack { item_id: "dirt".into(), count: 10 };
    let c = Stack { item_id: "stone".into(), count: 10 };
    assert_eq!(a, b);
    assert_ne!(a, c);
}

#[test]
fn stack_clone() {
    let stack = Stack { item_id: "dirt".into(), count: 50 };
    let cloned = stack.clone();
    assert_eq!(stack, cloned);
}

#[test]
fn stack_as_inventory_slot() {
    let slot: InventorySlot = Stack { item_id: "dirt".into(), count: 10 };
    assert_eq!(slot.item_id, "dirt");
    assert_eq!(slot.count, 10);
}

#[test]
fn try_add_item_returns_remainder_when_both_bags_full() {
    let mut inv = Inventory::new();
    for slot in inv.main_bag.iter_mut().chain(inv.material_bag.iter_mut()) {
        *slot = Some(InventorySlot { item_id: "stone".into(), count: 999 });
    }

    let remaining = inv.try_add_item("dirt", 10, 999, BagTarget::Main);
    assert_eq!(remaining, 10);
}

#[test]
fn count_item_sums_across_both_bags() {
    let mut inv = Inventory::new();
    inv.main_bag[0] = Some(InventorySlot { item_id: "dirt".into(), count: 999 });
    inv.material_bag[0] = Some(InventorySlot { item_id: "dirt".into(), count: 999 });
    assert_eq!(inv.count_item("dirt"), 1998);
}

#[test]
fn remove_item_spans_both_bags() {
    let mut inv = Inventory::new();
    inv.main_bag[0] = Some(InventorySlot { item_id: "dirt".into(), count: 5 });
    inv.material_bag[0] = Some(InventorySlot { item_id: "dirt".into(), count: 5 });
    assert!(inv.remove_item("dirt", 8));
    assert_eq!(inv.count_item("dirt"), 2);
}

#[test]
fn remove_item_fails_when_not_enough() {
    let mut inv = Inventory::new();
    inv.main_bag[0] = Some(InventorySlot { item_id: "dirt".into(), count: 3 });
    assert!(!inv.remove_item("dirt", 5));
    assert_eq!(inv.count_item("dirt"), 3);
}

#[test]
fn remove_item_clears_empty_slots() {
    let mut inv = Inventory::new();
    inv.main_bag[0] = Some(InventorySlot { item_id: "dirt".into(), count: 5 });
    assert!(inv.remove_item("dirt", 5));
    assert!(inv.main_bag[0].is_none());
}

#[test]
fn count_item_returns_zero_for_missing() {
    let inv = Inventory::new();
    assert_eq!(inv.count_item("nonexistent"), 0);
}

#[test]
fn bag_target_routing_preserves_separation() {
    let mut inv = Inventory::new();
    inv.try_add_item("stone", 50, 999, BagTarget::Material);
    inv.try_add_item("sword", 1, 1, BagTarget::Main);

    assert!(inv.material_bag[0].is_some());
    assert_eq!(inv.material_bag[0].as_ref().unwrap().item_id, "stone");
    assert!(inv.main_bag[0].is_some());
    assert_eq!(inv.main_bag[0].as_ref().unwrap().item_id, "sword");
}

// ---- added: laws and edge cases on concrete values ----

#[test]
fn add_then_count_conserves_items() {
    let mut inv = Inventory::new();
    inv.main_bag[3] = Some(InventorySlot { item_id: "dirt".into(), count: 7 });
    let before = inv.count_item("dirt");
    let remaining = inv.try_add_item("dirt", 300, 99, BagTarget::Main);
    assert_eq!(remaining, 0);
    assert_eq!(inv.count_item("dirt"), before + 300);
    // existing stack topped up first, then new stacks in order
    assert_eq!(inv.main_bag[3].as_ref().unwrap().count, 99);
    assert_eq!(inv.main_bag[0].as_ref().unwrap().count, 99);
    assert_eq!(inv.main_bag[1].as_ref().unwrap().count, 99);
    assert_eq!(inv.main_bag[2].as_ref().unwrap().count, 10);
}

#[test]
fn add_partially_fits_and_reports_remainder() {
    let mut inv = Inventory::new();
    for slot in inv.main_bag.iter_mut().chain(inv.material_bag.iter_mut()) {
        *slot = Some(InventorySlot { item_id: "stone".into(), count: 5 });
    }
    inv.material_bag[39] = Some(InventorySlot { item_id: "dirt".into(), count: 95 });
    let remaining = inv.try_add_item("dirt", 10, 99, BagTarget::Main);
    assert_eq!(remaining, 6);
    assert_eq!(inv.count_item("dirt"), 99);
    assert_eq!(inv.count_item("stone"), 79 * 5);
}

#[test]
fn zero_stack_limit_opens_empty_stacks() {
    let mut inv = Inventory::new();
    let remaining = inv.try_add_item("dirt", 3, 0, BagTarget::Main);
    assert_eq!(remaining, 3);
    assert_eq!(inv.count_item("dirt"), 0);
    assert_eq!(inv.main_bag[0].as_ref().unwrap().count, 0);
}

#[test]
fn remove_item_takes_main_bag_first() {
    let mut inv = Inventory::new();
    inv.material_bag[0] = Some(InventorySlot { item_id: "dirt".into(), count: 4 });
    inv.main_bag[5] = Some(InventorySlot { item_id: "dirt".into(), count: 3 });
    assert!(inv.remove_item("dirt", 5));
    assert!(inv.main_bag[5].is_none());
    assert_eq!(inv.material_bag[0].as_ref().unwrap().count, 2);
}

#[test]
fn equipment_starts_empty() {
    let equip = Equipment::new();

    assert!(equip.get(EquipmentSlot::Head).is_none());
    assert!(equip.get(EquipmentSlot::Chest).is_none());
}

#[test]
fn equipment_can_equip_item() {
    let mut equip = Equipment::new();

    equip.equip(EquipmentSlot::Head, "iron_helmet".into());

    assert_eq!(equip.get(EquipmentSlot::Head), Some(&"iron_helmet".into()));
}

#[test]
fn equipment_unequip_returns_item() {
    let mut equip = Equipment::new();
    equip.equip(EquipmentSlot::Head, "iron_helmet".into());

    let item = equip.unequip(EquipmentSlot::Head);

    assert_eq!(item, Some("iron_helmet".into()));
    assert!(equip.get(EquipmentSlot::Head).is_none());
}

#[test]
fn equip_from_inventory_removes_from_bag() {
    let mut equip = Equipment::new();
    let mut inv = Inventory::new();
    inv.try_add_item("iron_helmet", 1, 1, BagTarget::Main);

    assert!(equip.equip_from_inventory(EquipmentSlot::Head, "iron_helmet", &mut inv));
    assert_eq!(equip.get(EquipmentSlot::Head), Some(&"iron_helmet".into()));
    assert_eq!(inv.count_item("iron_helmet"), 0);
}

#[test]
fn equip_from_inventory_fails_without_item() {
    let mut equip = Equipment::new();
    let mut inv = Inventory::new();

    assert!(!equip.equip_from_inventory(EquipmentSlot::Head, "iron_helmet", &mut inv));
    assert!(equip.get(EquipmentSlot::Head).is_none());
}

#[test]
fn equip_from_inventory_swaps_old_item() {
    let mut equip = Equipment::new();
    let mut inv = Inventory::new();
    inv.try_add_item("gold_helmet", 1, 1, BagTarget::Main);

    equip.equip(EquipmentSlot::Head, "iron_helmet".into());

    assert!(equip.equip_from_inventory(EquipmentSlot::Head, "gold_helmet", &mut inv));
    assert_eq!(equip.get(EquipmentSlot::Head), Some(&"gold_helmet".into()));
    assert_eq!(inv.count_item("iron_helmet"), 1);
}

#[test]
fn unequip_to_inventory_returns_item() {
    let mut equip = Equipment::new();
    let mut inv = Inventory::new();
    equip.equip(EquipmentSlot::Head, "iron_helmet".into());

    assert!(equip.unequip_to_inventory(EquipmentSlot::Head, &mut inv));
    assert!(equip.get(EquipmentSlot::Head).is_none());
    assert_eq!(inv.count_item("iron_helmet"), 1);
}

#[test]
fn unequip_to_inventory_fails_when_empty() {
    let mut equip = Equipment::new();
    let mut inv = Inventory::new();

    assert!(!equip.unequip_to_inventory(EquipmentSlot::Head, &mut inv));
}

#[test]
fn equip_swap_fails_when_inventory_full() {
    let mut equip = Equipment::new();
    let mut inv = Inventory::new();
    for slot in inv.main_bag.iter_mut().chain(inv.material_bag.iter_mut()) {
        *slot = Some(InventorySlot { item_id: "stone".into(), count: 1 });
    }
    inv.main_bag[0] = Some(InventorySlot { item_id: "gold_helmet".into(), count: 1 });
    equip.equip(EquipmentSlot::Head, "iron_helmet".into());

    assert!(!equip.equip_from_inventory(EquipmentSlot::Head, "gold_helmet", &mut inv));
    assert_eq!(equip.get(EquipmentSlot::Head), Some(&"iron_helmet".into()));
    assert_eq!(inv.count_item("gold_helmet"), 1);
    assert_eq!(inv.count_item("iron_helmet"), 0);
}

#[test]
fn unequip_to_full_inventory_keeps_item_equipped() {
    let mut equip = Equipment::new();
    let mut inv = Inventory::new();
    for slot in inv.main_bag.iter_mut().chain(inv.material_bag.iter_mut()) {
        *slot = Some(InventorySlot { item_id: "stone".into(), count: 1 });
    }
    equip.equip(EquipmentSlot::Pet, "slime".into());
    assert!(!equip.unequip_to_inventory(EquipmentSlot::Pet, &mut inv));
    assert_eq!(equip.get(EquipmentSlot::Pet), Some(&"slime".into()));
    assert_eq!(inv.count_item("slime"), 0);
}

#[test]
fn equip_same_item_twice_is_noop() {
    let mut equip = Equipment::new();
    let mut inv = Inventory::new();
    inv.try_add_item("ring", 2, 1, BagTarget::Main);
    assert!(equip.equip_from_inventory(EquipmentSlot::Accessory2, "ring", &mut inv));
    assert!(equip.equip_from_inventory(EquipmentSlot::Accessory2, "ring", &mut inv));
    assert_eq!(inv.count_item("ring"), 1);
    assert!(equip.get(EquipmentSlot::Accessory1).is_none());
}

#[test]
fn hotbar_has_6_slots() {
    let hotbar = Hotbar::new();
    assert_eq!(hotbar.slots.len(), 6);
}

#[test]
fn hotbar_active_slot_defaults_to_zero() {
    let hotbar = Hotbar::new();
    assert_eq!(hotbar.active_slot, 0);
}

#[test]
fn hotbar_select_slot_wraps() {
    let mut hotbar = Hotbar::new();
    hotbar.select_slot(5);
    assert_eq!(hotbar.active_slot, 5);

    hotbar.select_slot(6);
    assert_eq!(hotbar.active_slot, 0);
}

#[test]
fn hotbar_hand_items_follow_active_slot() {
    let mut hotbar = Hotbar::new();
    hotbar.slots[2].left_hand = Some("pickaxe".into());
    hotbar.slots[2].right_hand = Some("torch".into());
    assert_eq!(hotbar.get_item_for_hand(true), None);
    hotbar.select_slot(14);
    assert_eq!(hotbar.get_item_for_hand(true), Some("pickaxe"));
    assert_eq!(hotbar.get_item_for_hand(false), Some("torch"));
}
