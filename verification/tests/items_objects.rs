use starbeam::inventory::components::InventorySlot;
use starbeam::item::definition::{
    default_drop_max, default_drop_min, default_max_stack, DropDef, EquipmentSlot, ItemDef, ItemType, Rarity,
};
use starbeam::item::registry::{ItemId, ItemRegistry};
use starbeam::object::definition::{AutoItemConfig, ObjectDef, ObjectId, ObjectType, PlacementRule};
use starbeam::object::placed::{ObjectState, OccupancyRef, PlacedObject};
use starbeam::object::placement::{can_place_object, footprint, PlacementSite};
use starbeam::object::registry::ObjectRegistry;

fn dirt_def() -> ItemDef {
    ItemDef {
        id: "dirt".into(),
        display_name: "Dirt Block".into(),
        description: "A block of dirt".into(),
        max_stack: 999,
        rarity: Rarity::Common,
        item_type: ItemType::Block,
        icon: Some("items/dirt.png".into()),
        placeable: Some("dirt".into()),
        placeable_object: None,
        equipment_slot: None,
    }
}

#[test]
fn item_def_has_required_fields() {
    let item = dirt_def();

    assert_eq!(item.id, "dirt");
    assert_eq!(item.max_stack, 999);
    assert!(item.placeable.is_some());
}

#[test]
fn drop_def_calculates_count() {
    let drop = DropDef { item_id: "dirt".into(), min: 1, max: 3 };

    assert!(drop.min <= drop.max);
}

#[test]
fn item_defaults() {
    assert_eq!(default_max_stack(), 99);
    assert_eq!(default_drop_min(), 1);
    assert_eq!(default_drop_max(), 1);
    assert_eq!(Rarity::default_rarity(), Rarity::Common);
    assert_eq!(ItemType::default_type(), ItemType::Block);
}

#[test]
fn equipment_slot_positions_are_distinct() {
    let all = [
        EquipmentSlot::Head,
        EquipmentSlot::Chest,
        EquipmentSlot::Legs,
        EquipmentSlot::Back,
        EquipmentSlot::Accessory1,
        EquipmentSlot::Accessory2,
        EquipmentSlot::Accessory3,
        EquipmentSlot::Accessory4,
        EquipmentSlot::Weapon1,
        EquipmentSlot::Weapon2,
        EquipmentSlot::Pet,
        EquipmentSlot::CosmeticHead,
        EquipmentSlot::CosmeticChest,
        EquipmentSlot::CosmeticLegs,
        EquipmentSlot::CosmeticBack,
    ];
    for (k, s) in all.iter().enumerate() {
        assert_eq!(s.index(), k);
    }
}

fn test_item_registry() -> ItemRegistry {
    let mut stone = dirt_def();
    stone.id = "stone".into();
    stone.display_name = "Stone".into();
    stone.description = "A block of stone".into();
    stone.icon = Some("items/stone.png".into());
    stone.placeable = Some("stone".into());
    ItemRegistry::from_defs(vec![dirt_def(), stone])
}

#[test]
fn registry_lookup_by_name() {
    let reg = test_item_registry();
    let id = reg.by_name("dirt");
    assert_eq!(id, ItemId(0));
    assert_eq!(reg.by_name("stone"), ItemId(1));
}

#[test]
fn registry_get_returns_def() {
    let reg = test_item_registry();
    let dirt = reg.get(ItemId(0));
    assert_eq!(dirt.id, "dirt");
    assert_eq!(dirt.max_stack, 999);
}

#[test]
fn registry_max_stack() {
    let reg = test_item_registry();
    assert_eq!(reg.max_stack(ItemId(0)), 999);
    assert_eq!(reg.max_stack(ItemId(1)), 999);
}

#[test]
fn item_registry_later_duplicate_wins() {
    let mut second = dirt_def();
    second.max_stack = 5;
    let reg = ItemRegistry::from_defs(vec![dirt_def(), second]);
    assert_eq!(reg.by_name("dirt"), ItemId(1));
    assert_eq!(reg.try_by_name("mud"), None);
    assert_eq!(reg.len(), 2);
    assert!(!reg.is_empty());
    assert_eq!(ItemId::air(), ItemId(0));
}

fn test_object(
    id: &str,
    size: (u32, u32),
    solid_mask: Vec<bool>,
    placement: PlacementRule,
    object_type: ObjectType,
) -> ObjectDef {
    ObjectDef {
        id: id.into(),
        display_name: id.into(),
        size,
        sprite: format!("objects/{id}.png"),
        solid_mask,
        placement,
        light_emission: [0, 0, 0],
        object_type,
        drops: vec![],
        sprite_columns: 1,
        sprite_rows: 1,
        auto_item: None,
        background: false,
    }
}

#[test]
fn object_id_none_is_zero() {
    assert_eq!(ObjectId::none(), ObjectId(0));
}

#[test]
fn is_tile_solid_1x1() {
    let def = test_object("barrel", (1, 1), vec![true], PlacementRule::Floor, ObjectType::Decoration);
    assert!(def.is_tile_solid(0, 0));
}

#[test]
fn is_tile_solid_multi_tile() {
    let def = test_object(
        "table",
        (3, 2),
        vec![true, false, true, false, false, false],
        PlacementRule::Floor,
        ObjectType::Decoration,
    );
    assert!(def.is_tile_solid(0, 0));
    assert!(!def.is_tile_solid(1, 0));
    assert!(def.is_tile_solid(2, 0));
    assert!(!def.is_tile_solid(0, 1));
    assert!(!def.is_tile_solid(1, 1));
    assert!(!def.is_tile_solid(2, 1));
}

#[test]
fn is_tile_solid_out_of_bounds_returns_false() {
    let mut def = test_object("torch", (1, 1), vec![false], PlacementRule::Wall, ObjectType::LightSource);
    def.light_emission = [240, 180, 80];
    assert!(!def.is_tile_solid(5, 5));
}

#[test]
fn generate_item_def_from_auto_item() {
    let mut def = test_object("wooden_table", (3, 2), vec![true; 6], PlacementRule::Floor, ObjectType::Decoration);
    def.auto_item = Some(AutoItemConfig {
        item_id: None,
        description: "A sturdy table".into(),
        max_stack: 10,
        rarity: Rarity::Common,
        item_type: ItemType::Block,
        icon: None,
    });
    let item = def.generate_item_def("content/objects/wooden_table/").unwrap();
    assert_eq!(item.id, "wooden_table");
    assert_eq!(item.display_name, "wooden_table");
    assert_eq!(item.placeable_object, Some("wooden_table".into()));
    assert_eq!(item.max_stack, 10);
    assert!(item.icon.is_none());
}

#[test]
fn generate_item_def_returns_none_without_auto_item() {
    let def = test_object("barrel", (1, 1), vec![true], PlacementRule::Floor, ObjectType::Decoration);
    assert!(def.generate_item_def("content/objects/barrel/").is_none());
}

#[test]
fn generate_item_def_joins_icon_path_and_overrides_id() {
    let mut def = test_object("torch_object", (1, 1), vec![false], PlacementRule::Wall, ObjectType::LightSource);
    def.auto_item = Some(AutoItemConfig {
        item_id: Some("torch".into()),
        description: String::new(),
        max_stack: 99,
        rarity: Rarity::Uncommon,
        item_type: ItemType::Material,
        icon: Some("icon.png".into()),
    });
    let item = def.generate_item_def("content/objects/torch/").unwrap();
    assert_eq!(item.id, "torch");
    assert_eq!(item.icon, Some("content/objects/torch/icon.png".into()));
    assert_eq!(item.rarity, Rarity::Uncommon);
    assert_eq!(item.item_type, ItemType::Material);
    assert_eq!(item.placeable_object, Some("torch_object".into()));
}

#[test]
fn validate_auto_fills_drops() {
    let mut def = test_object("chest", (2, 1), vec![true, true], PlacementRule::Floor, ObjectType::Decoration);
    def.auto_item = Some(AutoItemConfig {
        item_id: None,
        description: "A chest".into(),
        max_stack: 10,
        rarity: Rarity::Common,
        item_type: ItemType::Block,
        icon: None,
    });
    assert!(def.drops.is_empty());
    def.validate();
    assert_eq!(def.drops.len(), 1);
    assert_eq!(def.drops[0].item_id, "chest");
}

#[test]
fn validate_pads_and_truncates_solid_mask() {
    let mut wide = test_object("table", (3, 2), vec![true, true], PlacementRule::Floor, ObjectType::Decoration);
    wide.validate();
    assert_eq!(wide.solid_mask, vec![true, true, false, false, false, false]);
    assert!(wide.drops.is_empty());

    let mut small = test_object("pot", (1, 1), vec![false, true, true], PlacementRule::Floor, ObjectType::Decoration);
    small.validate();
    assert_eq!(small.solid_mask, vec![false]);
}

#[test]
fn placed_object_stores_position() {
    let obj = PlacedObject { object_id: ObjectId(1), local_x: 5, local_y: 10, state: ObjectState::Default };
    assert_eq!(obj.local_x, 5);
    assert_eq!(obj.local_y, 10);
}

#[test]
fn object_state_default() {
    let state = ObjectState::Default;
    assert!(matches!(state, ObjectState::Default));
    assert!(matches!(ObjectState::default(), ObjectState::Default));
}

#[test]
fn object_state_container() {
    let state = ObjectState::Container { contents: vec![None; 16] };
    match state {
        ObjectState::Container { contents } => assert_eq!(contents.len(), 16),
        _ => panic!("expected Container"),
    }
}

#[test]
fn occupancy_ref_tracks_anchor() {
    let occ = OccupancyRef { object_index: 0, is_anchor: true };
    assert!(occ.is_anchor);
    assert_eq!(occ.object_index, 0);
}

fn test_object_registry() -> ObjectRegistry {
    let mut torch = test_object("torch", (1, 1), vec![false], PlacementRule::Wall, ObjectType::LightSource);
    torch.display_name = "Torch".into();
    torch.light_emission = [240, 180, 80];
    let mut chest =
        test_object("chest", (2, 1), vec![true, true], PlacementRule::Floor, ObjectType::Container { slots: 16 });
    chest.display_name = "Wooden Chest".into();
    ObjectRegistry::from_defs(vec![torch, chest])
}

#[test]
fn lookup_by_name() {
    let reg = test_object_registry();
    assert_eq!(reg.by_name("torch"), Some(ObjectId(0)));
    assert_eq!(reg.by_name("chest"), Some(ObjectId(1)));
}

#[test]
fn by_name_returns_none_for_unknown() {
    let reg = test_object_registry();
    assert_eq!(reg.by_name("nonexistent"), None);
}

#[test]
fn get_returns_def() {
    let reg = test_object_registry();
    let torch = reg.get(ObjectId(0));
    assert_eq!(torch.id, "torch");
    assert_eq!(torch.size, (1, 1));
}

#[test]
fn registry_len() {
    let reg = test_object_registry();
    assert_eq!(reg.len(), 2);
    assert!(!reg.is_empty());
}

#[test]
fn object_registry_validates_and_try_get() {
    let bad = test_object("rug", (2, 1), vec![], PlacementRule::Floor, ObjectType::Decoration);
    let reg = ObjectRegistry::from_defs(vec![bad]);
    assert_eq!(reg.get(ObjectId(0)).solid_mask, vec![false, false]);
    assert!(reg.try_get(ObjectId(0)).is_some());
    assert!(reg.try_get(ObjectId(1)).is_none());
}

fn site(area: Vec<bool>, floor: Vec<bool>, ceiling: Vec<bool>, left: bool, right: bool) -> PlacementSite {
    PlacementSite { area_clear: area, floor_solid: floor, ceiling_solid: ceiling, left_solid: left, right_solid: right }
}

#[test]
fn can_place_on_solid_floor() {
    let barrel = test_object("barrel", (1, 1), vec![true], PlacementRule::Floor, ObjectType::Decoration);
    assert!(can_place_object(&barrel, &site(vec![true], vec![true], vec![false], false, false)));
}

#[test]
fn cannot_place_floor_object_in_air() {
    let barrel = test_object("barrel", (1, 1), vec![true], PlacementRule::Floor, ObjectType::Decoration);
    assert!(!can_place_object(&barrel, &site(vec![true], vec![false], vec![false], false, false)));
}

#[test]
fn cannot_place_on_occupied_tile() {
    let barrel = test_object("barrel", (1, 1), vec![true], PlacementRule::Floor, ObjectType::Decoration);
    assert!(!can_place_object(&barrel, &site(vec![false], vec![true], vec![false], false, false)));
}

#[test]
fn wall_placement_needs_adjacent_solid() {
    let torch = test_object("torch", (1, 1), vec![false], PlacementRule::Wall, ObjectType::LightSource);
    assert!(!can_place_object(&torch, &site(vec![true], vec![false], vec![false], false, false)));
    assert!(can_place_object(&torch, &site(vec![true], vec![false], vec![false], true, false)));
}

#[test]
fn floor_or_wall_placement_accepts_floor_or_wall() {
    let lantern = test_object("lantern", (1, 1), vec![false], PlacementRule::FloorOrWall, ObjectType::LightSource);
    assert!(!can_place_object(&lantern, &site(vec![true], vec![false], vec![false], false, false)));
    assert!(can_place_object(&lantern, &site(vec![true], vec![true], vec![false], false, false)));
    assert!(can_place_object(&lantern, &site(vec![true], vec![false], vec![false], true, false)));
    assert!(can_place_object(&lantern, &site(vec![true], vec![false], vec![false], false, true)));
}

#[test]
fn ceiling_and_any_placement() {
    let lamp = test_object("lamp", (2, 1), vec![false, false], PlacementRule::Ceiling, ObjectType::LightSource);
    assert!(!can_place_object(&lamp, &site(vec![true, true], vec![true, true], vec![true, false], true, true)));
    assert!(can_place_object(&lamp, &site(vec![true, true], vec![false, false], vec![true, true], false, false)));
    let sign = test_object("sign", (1, 1), vec![false], PlacementRule::Any, ObjectType::Decoration);
    assert!(can_place_object(&sign, &site(vec![true], vec![false], vec![false], false, false)));
}

#[test]
fn place_multi_tile_object() {
    let tiles = footprint(0, 5, 2, 1);
    assert_eq!(tiles, vec![(0, 5, true), (1, 5, false)]);
    let table = footprint(-1, 2, 3, 2);
    assert_eq!(table.len(), 6);
    assert_eq!(table[0], (-1, 2, true));
    assert_eq!(table[4], (0, 3, false));
}

#[test]
fn container_object_initializes_slots() {
    let state = ObjectState::initial_for(&ObjectType::Container { slots: 16 });
    match &state {
        ObjectState::Container { contents } => {
            assert_eq!(contents.len(), 16);
            assert!(contents.iter().all(|s| s.is_none()));
        }
        _ => panic!("expected Container state"),
    }
    assert!(matches!(ObjectState::initial_for(&ObjectType::Decoration), ObjectState::Default));
    let _unused: Option<InventorySlot> = None;
}
