use starbeam::fluid::debug_overlay::{FluidDebugMode, FluidDebugState};
use starbeam::fluid::debug_tool::FluidDebugTool;
use starbeam::interaction::block_action::{changes_tiles, decide_block_action, within_reach, BlockAction, BlockClick};
use starbeam::interaction::interactable::{
    handle_interaction_input, InteractableKind, InteractionAction, InteractionInput, InteractionUi, ShipStatus,
};
use starbeam::inventory::components::{BagTarget, Inventory};
use starbeam::inventory::pickup::{pick_up, pickup_target, PickupOutcome};
use starbeam::item::definition::{ItemDef, ItemType, Rarity};
use starbeam::item::registry::ItemRegistry;
use starbeam::liquid::data::LiquidId;
use starbeam::liquid::field::{blur_liquid_field, field_rect, fill_liquid_field, liquid_pixel, FieldRect};
use starbeam::object::animation::{frame_cell, next_frame, random_start_frame, start_frame_cell};

fn item(id: &str, max_stack: u16, item_type: ItemType) -> ItemDef {
    ItemDef {
        id: id.into(),
        display_name: id.into(),
        description: String::new(),
        max_stack,
        rarity: Rarity::Common,
        item_type,
        icon: None,
        placeable: None,
        placeable_object: None,
        equipment_slot: None,
    }
}

fn quiet_input() -> InteractionInput {
    InteractionInput {
        chat_active: false,
        interact_pressed: false,
        hand_craft_pressed: false,
        nearby: None,
        on_ship: false,
        ship: ShipStatus::Unknown,
    }
}

fn closed_ui() -> InteractionUi {
    InteractionUi { open_station: None, hand_craft_open: false }
}

fn left_click() -> BlockClick {
    BlockClick {
        chat_active: false,
        left_held: true,
        right_click: false,
        item_used_this_frame: false,
        in_reach: true,
        object_here: false,
        foreground_solid: Some(false),
        left_item_in_stock: true,
        left_places_object: false,
        left_places_tile: true,
        foreground_support: true,
        background_filled: Some(false),
        background_support: true,
        right_places_tile: true,
    }
}

// ---- interaction keys ----

#[test]
fn interact_opens_nearby_station() {
    let mut ui = InteractionUi { open_station: None, hand_craft_open: true };
    let input = InteractionInput { interact_pressed: true, nearby: Some((7, InteractableKind::Station)), ..quiet_input() };
    let action = handle_interaction_input(&mut ui, &input);
    assert_eq!(action, InteractionAction::Nothing);
    assert_eq!(ui, InteractionUi { open_station: Some(7), hand_craft_open: false });
}

#[test]
fn interact_closes_open_station_first() {
    let mut ui = InteractionUi { open_station: Some(3), hand_craft_open: false };
    let input = InteractionInput { interact_pressed: true, nearby: Some((7, InteractableKind::Station)), ..quiet_input() };
    let action = handle_interaction_input(&mut ui, &input);
    assert_eq!(action, InteractionAction::Nothing);
    assert_eq!(ui, closed_ui());
}

#[test]
fn capsule_warps_to_ship() {
    let mut ui = closed_ui();
    let input = InteractionInput { interact_pressed: true, nearby: Some((1, InteractableKind::Capsule)), ..quiet_input() };
    assert_eq!(handle_interaction_input(&mut ui, &input), InteractionAction::WarpToShip);
}

#[test]
fn airlock_prefers_capsule_orbit_then_body_orbit() {
    let base = InteractionInput { interact_pressed: true, nearby: Some((1, InteractableKind::Airlock)), on_ship: true, ..quiet_input() };
    let mut ui = closed_ui();
    let with_capsule = InteractionInput { ship: ShipStatus::Orbit { body_orbit: Some(2), capsule_orbit: Some(5) }, ..base };
    assert_eq!(handle_interaction_input(&mut ui, &with_capsule), InteractionAction::WarpToBody(5));
    let without_capsule = InteractionInput { ship: ShipStatus::Orbit { body_orbit: Some(2), capsule_orbit: None }, ..base };
    assert_eq!(handle_interaction_input(&mut ui, &without_capsule), InteractionAction::WarpToBody(2));
    let no_orbit = InteractionInput { ship: ShipStatus::Orbit { body_orbit: None, capsule_orbit: None }, ..base };
    assert_eq!(handle_interaction_input(&mut ui, &no_orbit), InteractionAction::BodyWithoutOrbit);
    let transit = InteractionInput { ship: ShipStatus::InTransit, ..base };
    assert_eq!(handle_interaction_input(&mut ui, &transit), InteractionAction::ShipInTransit);
    let unknown = InteractionInput { ship: ShipStatus::Unknown, ..base };
    assert_eq!(handle_interaction_input(&mut ui, &unknown), InteractionAction::ShipLocationUnknown);
    let planet = InteractionInput { on_ship: false, ..with_capsule };
    assert_eq!(handle_interaction_input(&mut ui, &planet), InteractionAction::AirlockNotOnShip);
}

#[test]
fn hand_craft_key_toggles_and_closes_station() {
    let mut ui = InteractionUi { open_station: Some(9), hand_craft_open: false };
    let input = InteractionInput { hand_craft_pressed: true, ..quiet_input() };
    handle_interaction_input(&mut ui, &input);
    assert_eq!(ui, InteractionUi { open_station: None, hand_craft_open: true });
    handle_interaction_input(&mut ui, &input);
    assert_eq!(ui, closed_ui());
}

#[test]
fn chat_swallows_interaction_keys() {
    let mut ui = closed_ui();
    let input = InteractionInput {
        chat_active: true,
        interact_pressed: true,
        hand_craft_pressed: true,
        nearby: Some((1, InteractableKind::Capsule)),
        ..quiet_input()
    };
    assert_eq!(handle_interaction_input(&mut ui, &input), InteractionAction::Nothing);
    assert_eq!(ui, closed_ui());
}

// ---- block interaction ----

#[test]
fn reach_is_five_tiles_and_wraps() {
    assert!(within_reach(15, 10, 10, 10, 1000));
    assert!(!within_reach(16, 10, 10, 10, 1000));
    assert!(!within_reach(10, 16, 10, 10, 1000));
    assert!(within_reach(10, 5, 10, 10, 1000));
    // Across the wrap seam: tile 998 is 3 tiles west of tile 1.
    assert!(within_reach(998, 10, 1, 10, 1000));
    assert!(within_reach(1, 10, 998, 10, 1000));
}

#[test]
fn left_click_breaks_object_before_tile() {
    let c = BlockClick { object_here: true, foreground_solid: Some(true), ..left_click() };
    assert_eq!(decide_block_action(&c), BlockAction::BreakObject);
}

#[test]
fn left_click_mines_solid_tile() {
    let c = BlockClick { foreground_solid: Some(true), ..left_click() };
    assert_eq!(decide_block_action(&c), BlockAction::MineTile);
}

#[test]
fn left_click_places_object_or_tile() {
    let c = BlockClick { left_places_object: true, ..left_click() };
    assert_eq!(decide_block_action(&c), BlockAction::PlaceObject);
    assert_eq!(decide_block_action(&left_click()), BlockAction::PlaceTile);
    let unsupported = BlockClick { foreground_support: false, ..left_click() };
    assert_eq!(decide_block_action(&unsupported), BlockAction::Nothing);
    let empty_hand = BlockClick { left_item_in_stock: false, left_places_object: true, ..left_click() };
    assert_eq!(decide_block_action(&empty_hand), BlockAction::Nothing);
    let unloaded = BlockClick { foreground_solid: None, ..left_click() };
    assert_eq!(decide_block_action(&unloaded), BlockAction::Nothing);
}

#[test]
fn right_click_works_on_background() {
    let right = BlockClick { left_held: false, right_click: true, ..left_click() };
    assert_eq!(decide_block_action(&right), BlockAction::PlaceBackground);
    let filled = BlockClick { background_filled: Some(true), ..right };
    assert_eq!(decide_block_action(&filled), BlockAction::BreakBackground);
    let used = BlockClick { item_used_this_frame: true, ..filled };
    assert_eq!(decide_block_action(&used), BlockAction::Nothing);
    let no_tile = BlockClick { right_places_tile: false, ..right };
    assert_eq!(decide_block_action(&no_tile), BlockAction::Nothing);
}

#[test]
fn out_of_reach_or_chat_does_nothing() {
    let far = BlockClick { in_reach: false, ..left_click() };
    assert_eq!(decide_block_action(&far), BlockAction::Nothing);
    let chatting = BlockClick { chat_active: true, ..left_click() };
    assert_eq!(decide_block_action(&chatting), BlockAction::Nothing);
    let idle = BlockClick { left_held: false, right_click: false, ..left_click() };
    assert_eq!(decide_block_action(&idle), BlockAction::Nothing);
}

#[test]
fn tiles_change_only_when_layers_do() {
    assert!(!changes_tiles(BlockAction::MineTile, false));
    assert!(changes_tiles(BlockAction::MineTile, true));
    assert!(changes_tiles(BlockAction::PlaceTile, false));
    assert!(!changes_tiles(BlockAction::PlaceObject, true));
    assert!(!changes_tiles(BlockAction::BreakObject, true));
}

// ---- pickup ----

#[test]
fn pickup_routes_blocks_and_materials_to_material_bag() {
    assert_eq!(pickup_target(ItemType::Block), BagTarget::Material);
    assert_eq!(pickup_target(ItemType::Material), BagTarget::Material);
    assert_eq!(pickup_target(ItemType::Tool), BagTarget::Main);
    assert_eq!(pickup_target(ItemType::Consumable), BagTarget::Main);
}

#[test]
fn pickup_adds_whole_stack() {
    let registry = ItemRegistry::from_defs(vec![item("dirt", 999, ItemType::Block)]);
    let mut inv = Inventory::new();
    assert_eq!(pick_up(&mut inv, &registry, "dirt", 30), PickupOutcome::All { picked: 30 });
    assert_eq!(inv.count_item("dirt"), 30);
    assert!(inv.material_bag[0].is_some());
    assert!(inv.main_bag[0].is_none());
}

#[test]
fn pickup_of_unknown_item_leaves_inventory() {
    let registry = ItemRegistry::from_defs(vec![item("dirt", 999, ItemType::Block)]);
    let mut inv = Inventory::new();
    assert_eq!(pick_up(&mut inv, &registry, "mystery", 3), PickupOutcome::UnknownItem);
    assert_eq!(inv.count_item("mystery"), 0);
}

#[test]
fn pickup_partial_when_bags_fill_up() {
    let registry = ItemRegistry::from_defs(vec![item("sword", 1, ItemType::Weapon)]);
    let mut inv = Inventory::new();
    inv.main_bag.truncate(2);
    inv.material_bag.truncate(1);
    assert_eq!(pick_up(&mut inv, &registry, "sword", 5), PickupOutcome::Partial { picked: 3, left: 2 });
    assert_eq!(inv.count_item("sword"), 3);
    assert_eq!(pick_up(&mut inv, &registry, "sword", 2), PickupOutcome::NoRoom);
    assert_eq!(inv.count_item("sword"), 3);
}

// ---- object animation ----

#[test]
fn sprite_uv_rect_for_frame() {
    let columns = 4u32;
    let rows = 5u32;
    let scale_x = 1.0 / columns as f32;
    let scale_y = 1.0 / rows as f32;

    // Frame 0: col=0, row=0
    assert_eq!(frame_cell(0, columns), (0, 0));

    // Frame 3: col=3, row=0
    assert_eq!(frame_cell(3, columns), (3, 0));
    assert!((3.0 * scale_x - 0.75).abs() < f32::EPSILON);

    // Frame 4: col=0, row=1
    assert_eq!(frame_cell(4, columns), (0, 1));
    assert!((1.0 * scale_y - 0.2).abs() < f32::EPSILON);

    // Frame 19 (last): col=3, row=4
    assert_eq!(frame_cell(19, columns), (3, 4));
}

#[test]
fn animation_frames_loop() {
    assert_eq!(next_frame(0, 20), 1);
    assert_eq!(next_frame(18, 20), 19);
    assert_eq!(next_frame(19, 20), 0);
    assert_eq!(next_frame(0, 1), 0);
}

#[test]
fn random_start_frame_stays_in_range() {
    for _ in 0..50 {
        let (frame, cell) = random_start_frame(20, 5);
        assert!(frame < 20);
        assert_eq!(cell, (frame / 5, frame % 5));
    }
    assert_eq!(random_start_frame(1, 3), (0, (0, 0)));
}

#[test]
fn start_frame_cell_counts_by_rows() {
    assert_eq!(start_frame_cell(7, 5), (1, 2));
    assert_eq!(start_frame_cell(4, 5), (0, 4));
}

// ---- fluid debug overlay ----

#[test]
fn debug_modes_map_to_shader_numbers() {
    let numbers: Vec<u32> = FluidDebugMode::all().into_iter().map(|m| m.as_u32()).collect();
    assert_eq!(numbers, vec![0, 1, 2, 3, 4]);
    assert_eq!(FluidDebugMode::FluidType.label(), "Fluid Type");
    assert_eq!(FluidDebugMode::Off.label(), "Off");
    assert_eq!(FluidDebugMode::default(), FluidDebugMode::Off);
}

#[test]
fn debug_state_defaults_to_hidden_mass_with_grid() {
    let s = FluidDebugState::default();
    assert!(!s.visible);
    assert_eq!(s.mode, FluidDebugMode::Mass);
    assert!(s.show_grid);
}

#[test]
fn pour_tool_toggles_and_cycles_fluids() {
    let mut tool = FluidDebugTool::default();
    assert!(!tool.active);
    assert_eq!(tool.fluid_name(), "water");
    tool.toggle();
    assert!(tool.active);
    let mut names = Vec::new();
    for _ in 0..5 {
        tool.cycle();
        names.push(tool.fluid_name());
    }
    assert_eq!(names, vec!["lava", "steam", "toxic_gas", "smoke", "water"]);
    assert_eq!(tool.fluid_index, 0);
    assert!(tool.active);
}

// ---- liquid field texture ----

#[test]
fn liquid_types_map_to_channels() {
    assert_eq!(liquid_pixel(LiquidId(1), 200), [200, 0, 0, 200]);
    assert_eq!(liquid_pixel(LiquidId(2), 100), [0, 100, 0, 100]);
    assert_eq!(liquid_pixel(LiquidId(3), 50), [0, 0, 50, 50]);
    assert_eq!(liquid_pixel(LiquidId(9), 7), [7, 0, 0, 7]);
}

#[test]
fn field_rows_are_flipped() {
    // 2x2 field: bottom-left water, top-right oil.
    let samples = vec![Some((LiquidId(1), 255)), None, None, Some((LiquidId(3), 128))];
    let mut pixels = vec![9u8; 16];
    fill_liquid_field(&mut pixels, 2, 2, &samples);
    assert_eq!(
        pixels,
        vec![
            0, 0, 0, 0, 0, 0, 128, 128, // top row: empty, oil
            255, 0, 0, 255, 0, 0, 0, 0, // bottom row: water, empty
        ]
    );
}

#[test]
fn field_rect_pads_and_clips() {
    // 20x10 tile viewport around tile (100, 3) on a 50-row world.
    let r = field_rect(100, 3, 20, 10, 50);
    assert_eq!(r, FieldRect { min_tx: 86, min_ty: 0, width: 29, height: 13 });
    // Near the top of the world the rectangle is clipped at the last row.
    let top = field_rect(0, 48, 20, 10, 50);
    assert_eq!(top, FieldRect { min_tx: -14, min_ty: 39, width: 29, height: 11 });
}

#[test]
fn blur_radius_zero_is_noop() {
    let mut pixels: Vec<u8> = (0..36u8).collect();
    let before = pixels.clone();
    blur_liquid_field(&mut pixels, 3, 3, 0);
    assert_eq!(pixels, before);
}

#[test]
fn blur_spreads_single_pixel() {
    // 3x3 image, only the centre pixel's red channel lit.
    let mut pixels = vec![0u8; 36];
    pixels[4 * 4] = 90;
    blur_liquid_field(&mut pixels, 3, 3, 1);
    // Horizontal pass: the centre row becomes 45, 30, 45 (means over 2, 3
    // and 2 pixels); the vertical pass then averages each column.
    // Corner (0,0): horizontal row 0 is all 0, row 1 at x=0 is 45: mean of 2 = 22.
    assert_eq!(pixels[0], 22);
    // Centre: column 1 has 0, 30, 0: mean 10.
    assert_eq!(pixels[4 * 4], 10);
    // Edge (1, 0): rows 0 and 1 at x=1: 0 and 30: mean 15.
    assert_eq!(pixels[4], 15);
    // Other channels stay 0.
    assert_eq!(pixels[1], 0);
    assert_eq!(pixels[4 * 4 + 3], 0);
}

#[test]
fn blur_keeps_uniform_image() {
    let mut pixels = vec![77u8; 4 * 5 * 4];
    blur_liquid_field(&mut pixels, 4, 5, 2);
    assert!(pixels.iter().all(|&b| b == 77));
}

#[test]
fn placement_mode_cycles_three_fluids() {
    let mut mode = starbeam::fluid::debug_tool::FluidPlacementMode::default();
    assert!(!mode.enabled);
    mode.toggle();
    assert!(mode.enabled);
    let mut names = vec![mode.fluid_name()];
    for _ in 0..3 {
        mode.cycle();
        names.push(mode.fluid_name());
    }
    assert_eq!(names, vec!["water", "steam", "lava", "water"]);
}
