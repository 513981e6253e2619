use starbeam::fluid::active::ActiveFluids;
use starbeam::fluid::cell::FluidId;
use starbeam::fluid::definition;
use starbeam::fluid::reactions::{Adjacency, CompiledReaction, FluidReactionRegistry, ReactionNames};
use starbeam::fluid::registry::{FluidDef, FluidRegistry};
use starbeam::fluid::world::ChunkLayout;
use starbeam::liquid::data::LiquidId;
use starbeam::liquid::registry::{LiquidDef, LiquidReaction, LiquidRegistry};
use starbeam::liquid::sleep::SleepTracker;

#[test]
fn swap_pending_moves_to_current() {
    let mut af = ActiveFluids::default();
    af.wake(10, 20);
    af.wake(30, 40);
    assert_eq!(af.current.len(), 0);
    af.swap_pending();
    assert_eq!(af.current.len(), 2);
    assert_eq!(af.pending_wake.len(), 0);
}

#[test]
fn wake_with_neighbors_adds_5_tiles() {
    let mut af = ActiveFluids::default();
    af.wake_with_neighbors(5, 5);
    assert_eq!(af.pending_wake.len(), 5);
    assert!(af.pending_wake.contains((5, 5)));
    assert!(af.pending_wake.contains((4, 5)));
    assert!(af.pending_wake.contains((6, 5)));
    assert!(af.pending_wake.contains((5, 4)));
    assert!(af.pending_wake.contains((5, 6)));
}

#[test]
fn settle_counter_sleeps_after_3() {
    let mut af = ActiveFluids::default();
    let pos = (1, 1);
    assert!(!af.tick_settle(pos));
    assert!(!af.tick_settle(pos));
    assert!(af.tick_settle(pos));
}

#[test]
fn reset_settle_clears_counter() {
    let mut af = ActiveFluids::default();
    let pos = (1, 1);
    af.tick_settle(pos);
    af.tick_settle(pos);
    af.reset_settle(pos);
    assert!(!af.tick_settle(pos));
}

#[test]
fn sleep_removes_tile_from_tracking() {
    let mut af = ActiveFluids::new();
    af.wake(2, 3);
    af.wake(2, 3);
    af.swap_pending();
    assert_eq!(af.current.len(), 1);
    af.tick_settle((2, 3));
    af.sleep((2, 3));
    assert!(!af.current.contains((2, 3)));
    assert_eq!(af.settle_ticks.get((2, 3)), None);
}

#[test]
fn sleep_tracker_wakes_and_sleeps() {
    let mut s = SleepTracker::default();
    s.wake(1, 1);
    assert_eq!(s.active_count(), 1);
    for _ in 0..4 {
        s.mark_stable(1, 1);
        assert_eq!(s.active_count(), 1);
    }
    s.mark_stable(1, 1);
    assert_eq!(s.active_count(), 0);
}

#[test]
fn sleep_tracker_region_neighbors_and_cull() {
    let mut s = SleepTracker::new();
    s.wake_region(0, 0, 2, 1);
    assert_eq!(s.active_count(), 6);
    s.wake_region(5, 5, 4, 4);
    assert_eq!(s.active_count(), 6);
    s.mark_changed(10, 10);
    assert_eq!(s.active_count(), 11);
    s.cull_outside(0, 0, 9, 9);
    assert_eq!(s.active_count(), 6);
    let tiles = s.active_tiles();
    assert_eq!(tiles.len(), 6);
    assert!(tiles.contains(&(2, 1)));
    assert!(!tiles.contains(&(10, 10)));
}

#[test]
fn sleep_tracker_change_resets_count() {
    let mut s = SleepTracker::new();
    s.wake(0, 0);
    s.mark_stable(0, 0);
    s.mark_stable(0, 0);
    s.mark_stable(0, 0);
    s.mark_stable(0, 0);
    s.mark_changed(0, 0);
    s.mark_stable(0, 0);
    assert_eq!(s.active_count(), 5);
    s.mark_stable(0, 0);
    s.mark_stable(0, 0);
    s.mark_stable(0, 0);
    s.mark_stable(0, 0);
    assert_eq!(s.active_count(), 4);
}

#[test]
fn liquid_id_none() {
    assert!(LiquidId::none().is_none());
    assert!(!LiquidId(2).is_none());
}

fn fluid_defs() -> Vec<FluidDef> {
    vec![
        FluidDef { id: "water".to_string(), is_gas: false, color: [64, 128, 255, 180], light_emission: [0, 0, 0], effects: vec![] },
        FluidDef { id: "lava".to_string(), is_gas: false, color: [255, 80, 20, 220], light_emission: [255, 100, 20], effects: vec![] },
        FluidDef { id: "steam".to_string(), is_gas: true, color: [200, 200, 200, 100], light_emission: [0, 0, 0], effects: vec![] },
    ]
}

#[test]
fn registry_from_defs() {
    let reg = FluidRegistry::from_defs(fluid_defs());
    assert_eq!(reg.len(), 3);
}

#[test]
fn registry_by_name() {
    let reg = FluidRegistry::from_defs(fluid_defs());
    assert_eq!(reg.by_name("water"), FluidId(1));
    assert_eq!(reg.by_name("lava"), FluidId(2));
    assert_eq!(reg.by_name("steam"), FluidId(3));
}

#[test]
fn registry_get_def() {
    let reg = FluidRegistry::from_defs(fluid_defs());
    let water = reg.get(FluidId(1));
    assert_eq!(water.id, "water");
    assert!(!water.is_gas);

    let steam = reg.get(FluidId(3));
    assert_eq!(steam.id, "steam");
    assert!(steam.is_gas);
}

#[test]
fn registry_try_by_name_returns_none_for_unknown() {
    let reg = FluidRegistry::from_defs(fluid_defs());
    assert!(reg.try_by_name("unknown").is_none());
    assert!(!reg.is_empty());
    assert_eq!(FluidId::none(), FluidId(0));
}

fn definition_registry() -> definition::FluidRegistry {
    definition::FluidRegistry::from_defs(vec![
        definition::FluidDef { id: "water".into(), color: [64, 128, 255], light_opacity: 2, flow_rate: 6, light_emission: [0, 0, 0] },
        definition::FluidDef { id: "lava".into(), color: [255, 100, 20], light_opacity: 0, flow_rate: 2, light_emission: [200, 100, 20] },
    ])
}

#[test]
fn definition_lookup_by_name() {
    let reg = definition_registry();
    assert_eq!(reg.by_name("water"), FluidId(1));
    assert_eq!(reg.by_name("lava"), FluidId(2));
}

#[test]
fn definition_get_returns_def() {
    let reg = definition_registry();
    let water = reg.get(FluidId(1));
    assert_eq!(water.id, "water");
    assert_eq!(water.flow_rate, 6);
    assert_eq!(definition::default_flow_rate(), 6);
    assert_eq!(definition::default_light_opacity(), 2);
}

#[test]
fn reactions_match_either_order_and_adjacency() {
    let reg = FluidReactionRegistry {
        reactions: vec![
            CompiledReaction { fluid_a: FluidId(1), fluid_b: FluidId(2), adjacency: Adjacency::Above, result_fluid: None, byproduct_fluid: Some(FluidId(3)) },
            CompiledReaction { fluid_a: FluidId(2), fluid_b: FluidId(1), adjacency: Adjacency::Any, result_fluid: Some(FluidId(4)), byproduct_fluid: None },
        ],
    };
    assert_eq!(reg.find_reaction_index(FluidId(1), FluidId(2), &Adjacency::Above), Some(0));
    assert_eq!(reg.find_reaction_index(FluidId(2), FluidId(1), &Adjacency::Above), Some(0));
    assert_eq!(reg.find_reaction_index(FluidId(2), FluidId(1), &Adjacency::Side), Some(1));
    assert_eq!(reg.find_reaction_index(FluidId(1), FluidId(3), &Adjacency::Any), None);
    let r = reg.find_reaction(FluidId(1), FluidId(2), &Adjacency::Below).unwrap();
    assert_eq!(r.result_fluid, Some(FluidId(4)));
}

fn layout(width_chunks: i32) -> ChunkLayout {
    ChunkLayout { chunk_size: 4, width_chunks, height_chunks: 4 }
}

#[test]
fn test_resolve_basic() {
    assert_eq!(layout(4).resolve(0, 0), Some((0, 0, 0, 0)));
}

#[test]
fn test_resolve_wrapping() {
    assert_eq!(layout(2).resolve(-1, 0), Some((1, 0, 3, 0)));
}

#[test]
fn test_resolve_out_of_vertical_bounds() {
    assert_eq!(layout(2).resolve(0, -1), None);
    assert_eq!(layout(2).resolve(0, 16), None);
}

#[test]
fn resolve_wraps_whole_world_widths() {
    let l = layout(3);
    assert_eq!(l.resolve(5, 9), Some((1, 2, 1, 1)));
    assert_eq!(l.resolve(5 + 12, 9), l.resolve(5, 9));
    assert_eq!(l.resolve(-13, 15), Some((2, 3, 3, 3)));
}

fn liquid_registry() -> LiquidRegistry {
    LiquidRegistry::from_defs(vec![
        LiquidDef {
            name: "water".into(),
            light_emission: [0, 0, 0],
            light_opacity: 1,
            reactions: vec![
                LiquidReaction { other: "lava".into(), produce_tile: Some("stone".into()), consume_both: true },
                LiquidReaction { other: "oil".into(), produce_tile: None, consume_both: false },
                LiquidReaction { other: "lava".into(), produce_tile: Some("obsidian".into()), consume_both: true },
            ],
        },
        LiquidDef { name: "lava".into(), light_emission: [255, 100, 20], light_opacity: 0, reactions: vec![] },
    ])
}

#[test]
fn liquid_registry_lookups() {
    let reg = liquid_registry();
    assert_eq!(reg.by_name("water"), LiquidId(1));
    assert_eq!(reg.by_name("lava"), LiquidId(2));
    assert_eq!(reg.by_name("oil"), LiquidId(0));
    assert!(reg.get(LiquidId(0)).is_none());
    assert!(reg.get(LiquidId(3)).is_none());
    assert_eq!(reg.get(LiquidId(2)).unwrap().name, "lava");
    assert_eq!(reg.len(), 2);
}

#[test]
fn liquid_reaction_last_entry_wins() {
    let reg = liquid_registry();
    let r = reg.get_reaction(LiquidId(1), LiquidId(2)).unwrap();
    assert_eq!(r.produce_tile, Some("obsidian".into()));
    assert!(reg.get_reaction(LiquidId(2), LiquidId(1)).is_none());
    assert!(reg.get_reaction(LiquidId(0), LiquidId(2)).is_none());
    assert!(LiquidRegistry::default().is_empty());
}

#[test]
fn reaction_registry_resolves_fluid_names() {
    let fluids = FluidRegistry::from_defs(fluid_defs());
    let defs = vec![
        ReactionNames {
            fluid_a: "water".into(),
            fluid_b: "lava".into(),
            adjacency: Adjacency::Any,
            result_fluid: None,
            byproduct_fluid: Some("steam".into()),
        },
        ReactionNames {
            fluid_a: "steam".into(),
            fluid_b: "water".into(),
            adjacency: Adjacency::Above,
            result_fluid: Some("water".into()),
            byproduct_fluid: None,
        },
    ];
    let reg = FluidReactionRegistry::from_defs(&defs, &fluids);
    assert_eq!(reg.reactions.len(), 2);
    assert_eq!((reg.reactions[0].fluid_a, reg.reactions[0].fluid_b), (FluidId(1), FluidId(2)));
    assert_eq!(reg.reactions[0].byproduct_fluid, Some(FluidId(3)));
    assert_eq!(reg.reactions[0].result_fluid, None);
    assert_eq!(reg.reactions[1].adjacency, Adjacency::Above);
    assert_eq!(reg.reactions[1].result_fluid, Some(FluidId(1)));
    assert!(reg.find_reaction(FluidId(2), FluidId(1), &Adjacency::Side).is_some());
}
