use starbeam::fluid::cell::FluidId;
use starbeam::fluid::detectors::FluidContactState;
use starbeam::liquid::data::LiquidId;
use starbeam::liquid::reactions::{liquid_at, run_reactions};
use starbeam::liquid::registry::{LiquidDef, LiquidReaction, LiquidRegistry};
use starbeam::fluid::displacement::{displace_fluid, displacement_offset, DisplacementNeighbour, FluidLevel};
use starbeam::liquid::debug::{spawn_targets, DebugLiquidType};

fn reaction(other: &str, produce: Option<&str>, consume_both: bool) -> LiquidReaction {
    LiquidReaction { other: other.into(), produce_tile: produce.map(|s| s.into()), consume_both }
}

fn registry() -> LiquidRegistry {
    LiquidRegistry::from_defs(vec![
        LiquidDef {
            name: "water".into(),
            light_emission: [0, 0, 0],
            light_opacity: 1,
            reactions: vec![reaction("lava", Some("stone"), true)],
        },
        LiquidDef { name: "lava".into(), light_emission: [255, 100, 20], light_opacity: 0, reactions: vec![] },
        LiquidDef {
            name: "acid".into(),
            light_emission: [0, 40, 0],
            light_opacity: 1,
            reactions: vec![reaction("water", None, false)],
        },
    ])
}

const WATER: LiquidId = LiquidId(1);
const LAVA: LiquidId = LiquidId(2);
const ACID: LiquidId = LiquidId(3);

#[test]
fn liquid_lookup_uses_last_entry() {
    let cells = vec![((0, 0), WATER), ((1, 0), LAVA), ((0, 0), ACID)];
    assert_eq!(liquid_at(&cells, (0, 0)), ACID);
    assert_eq!(liquid_at(&cells, (1, 0)), LAVA);
    assert_eq!(liquid_at(&cells, (5, 5)), LiquidId(0));
}

#[test]
fn water_meeting_lava_makes_stone_and_consumes_both() {
    let cells = vec![((0, 0), WATER), ((1, 0), LAVA)];
    let effects = run_reactions(&vec![(0, 0), (1, 0)], &cells, &registry());
    assert_eq!(effects.len(), 1);
    assert_eq!(effects[0].center, (0, 0));
    assert_eq!(effects[0].site, (1, 0));
    assert_eq!(effects[0].produce_tile.as_deref(), Some("stone"));
    assert!(effects[0].consume_both);
}

#[test]
fn lava_has_no_reaction_of_its_own() {
    // Only lava is active: lava lists no reactions, so nothing happens.
    let cells = vec![((0, 0), WATER), ((1, 0), LAVA)];
    let effects = run_reactions(&vec![(1, 0)], &cells, &registry());
    assert!(effects.is_empty());
}

#[test]
fn partial_reaction_keeps_checking_other_neighbours() {
    // Acid at the centre, water below and above: acid consumes only the
    // water, so both neighbours react, in the order below, right, above, left.
    let cells = vec![((5, 5), ACID), ((5, 4), WATER), ((5, 6), WATER)];
    let effects = run_reactions(&vec![(5, 5)], &cells, &registry());
    assert_eq!(effects.len(), 2);
    assert_eq!(effects[0].site, (5, 4));
    assert_eq!(effects[1].site, (5, 6));
    assert!(!effects[0].consume_both);
    assert_eq!(effects[0].produce_tile, None);
}

#[test]
fn consumed_cells_do_not_react_again() {
    // Water at (0,0) and (2,0) both touch lava at (1,0): the first reaction
    // consumes the lava, so the second water cell finds nothing to react with.
    let cells = vec![((0, 0), WATER), ((1, 0), LAVA), ((2, 0), WATER)];
    let effects = run_reactions(&vec![(0, 0), (2, 0)], &cells, &registry());
    assert_eq!(effects.len(), 1);
    assert_eq!(effects[0].site, (1, 0));
}

#[test]
fn same_liquid_never_reacts() {
    let cells = vec![((0, 0), WATER), ((1, 0), WATER)];
    assert!(run_reactions(&vec![(0, 0), (1, 0)], &cells, &registry()).is_empty());
}

#[test]
fn fluid_contact_state_default_is_none() {
    let state = FluidContactState::default();
    assert_eq!(state.last_fluid, FluidId(0));
}

#[test]
fn splash_impact_fluid_on_exit_is_last_fluid() {
    let mut state = FluidContactState { last_fluid: FluidId(1) };
    let impact = state.update(FluidId(0));
    assert_eq!(impact, Some(FluidId(1)), "should use last_fluid when exiting");
    assert_eq!(state.last_fluid, FluidId(0));
}

#[test]
fn splash_impact_fluid_on_entry_is_current_fluid() {
    let mut state = FluidContactState { last_fluid: FluidId(0) };
    let impact = state.update(FluidId(2));
    assert_eq!(impact, Some(FluidId(2)), "should use current_fluid when entering");
}

#[test]
fn no_event_when_fluid_state_unchanged() {
    let mut state = FluidContactState { last_fluid: FluidId(1) };
    assert_eq!(state.update(FluidId(1)), None, "same fluid state should not trigger splash");
    let mut state = FluidContactState { last_fluid: FluidId(0) };
    assert_eq!(state.update(FluidId(0)), None, "both air should not trigger splash");
}

// ---- fluid displacement ----


fn open_tile() -> DisplacementNeighbour {
    DisplacementNeighbour { solid: false, fluid: FluidLevel::default() }
}

fn wall() -> DisplacementNeighbour {
    DisplacementNeighbour { solid: true, fluid: FluidLevel::default() }
}

fn holding(id: u8, level: u8) -> DisplacementNeighbour {
    DisplacementNeighbour { solid: false, fluid: FluidLevel { fluid_id: FluidId(id), level } }
}

#[test]
fn fluid_level_default_is_empty() {
    let cell = FluidLevel::default();
    assert_eq!(cell.fluid_id, FluidId(0));
    assert_eq!(cell.level, 0);
}

#[test]
fn displaced_fluid_goes_up_first() {
    let water = FluidLevel { fluid_id: FluidId(1), level: 200 };
    let r = displace_fluid(water, &[open_tile(), open_tile(), open_tile(), open_tile()]);
    assert_eq!(r, vec![Some(water), None, None, None]);
    assert_eq!(displacement_offset(0), (0, 1));
    assert_eq!(displacement_offset(3), (0, -1));
}

#[test]
fn displaced_fluid_fills_sides_in_order() {
    let water = FluidLevel { fluid_id: FluidId(1), level: 200 };
    let r = displace_fluid(water, &[wall(), holding(1, 100), open_tile(), open_tile()]);
    assert_eq!(
        r,
        vec![
            None,
            Some(FluidLevel { fluid_id: FluidId(1), level: 255 }),
            Some(FluidLevel { fluid_id: FluidId(1), level: 45 }),
            None,
        ]
    );
}

#[test]
fn other_fluids_and_walls_block_displacement() {
    let water = FluidLevel { fluid_id: FluidId(1), level: 80 };
    let r = displace_fluid(water, &[wall(), holding(2, 10), wall(), holding(1, 255)]);
    assert_eq!(r, vec![None, None, None, None]);
    let empty = FluidLevel { fluid_id: FluidId(1), level: 0 };
    assert_eq!(displace_fluid(empty, &[open_tile(), open_tile(), open_tile(), open_tile()]), vec![None, None, None, None]);
}

// ---- liquid debug keys ----


#[test]
fn debug_liquid_type_cycles_through_registered() {
    let mut t = DebugLiquidType::default();
    assert_eq!(t.current, 1);
    let mut seen = Vec::new();
    for _ in 0..4 {
        t.cycle(3);
        seen.push(t.current);
    }
    assert_eq!(seen, vec![2, 3, 1, 2]);
    let mut past = DebugLiquidType { current: 7 };
    past.cycle(3);
    assert_eq!(past.liquid(), LiquidId(1));
    let mut none = DebugLiquidType { current: 2 };
    none.cycle(0);
    assert_eq!(none.current, 2);
}

#[test]
fn debug_spawn_block_skips_rows_outside_world() {
    assert_eq!(spawn_targets(5, 0, 10), vec![(4, 0), (5, 0), (6, 0), (4, 1), (5, 1), (6, 1)]);
    assert_eq!(spawn_targets(0, 4, 10).len(), 9);
    assert_eq!(spawn_targets(0, 9, 10), vec![(-1, 8), (0, 8), (1, 8), (-1, 9), (0, 9), (1, 9)]);
}
