use vstd::prelude::*;

verus! {

/// What the nearest interactable entity is.
#[derive(Clone, Copy, Debug, PartialEq, Eq, Structural)]
pub enum InteractableKind {
    /// A crafting station: `E` opens its UI.
    Station,
    /// A drop capsule on a planet: `E` warps to the ship.
    Capsule,
    /// A ship airlock: `E` warps down to the orbited planet.
    Airlock,
    /// Anything else: `E` does nothing with it.
    Other,
}

/// Where the player's ship is, as far as the airlock cares.
#[derive(Clone, Copy, Debug, PartialEq, Eq, Structural)]
pub enum ShipStatus {
    /// In orbit around a body. `body_orbit` is the body's orbit index (if it
    /// has one); `capsule_orbit` is the orbit recorded with the capsule the
    /// player came up in, when that capsule is on the orbited body.
    Orbit { body_orbit: Option<u32>, capsule_orbit: Option<u32> },
    /// Travelling between bodies.
    InTransit,
    /// No ship location is known.
    Unknown,
}

/// The open interaction windows: the crafting station whose UI is open (by
/// entity id), and whether the hand-craft window is open.
#[derive(Clone, Copy, Debug, PartialEq, Eq, Structural)]
pub struct InteractionUi {
    pub open_station: Option<u64>,
    pub hand_craft_open: bool,
}

/// One frame of input for the interaction keys.
#[derive(Clone, Copy, Debug)]
pub struct InteractionInput {
    /// The chat box has focus (keys go to chat).
    pub chat_active: bool,
    /// `E` was pressed this frame.
    pub interact_pressed: bool,
    /// `C` was pressed this frame.
    pub hand_craft_pressed: bool,
    /// The nearest interactable in range, by entity id, with its kind.
    pub nearby: Option<(u64, InteractableKind)>,
    /// The current world is a ship.
    pub on_ship: bool,
    /// Where the ship is.
    pub ship: ShipStatus,
}

/// What the caller has to do besides updating the windows.
#[derive(Clone, Copy, Debug, PartialEq, Eq, Structural)]
pub enum InteractionAction {
    Nothing,
    /// Record the capsule's location (the nearby capsule) and warp to the ship.
    WarpToShip,
    /// Warp to the body at this orbit index.
    WarpToBody(u32),
    /// The airlock was used on a world that is not a ship: ignored.
    AirlockNotOnShip,
    /// The ship is travelling: nobody can disembark.
    ShipInTransit,
    /// No ship location is known.
    ShipLocationUnknown,
    /// The orbited body has no orbit index.
    BodyWithoutOrbit,
}

/// What pressing `E` at an airlock does.
pub open spec fn airlock_action(input: InteractionInput) -> InteractionAction {
    if !input.on_ship {
        InteractionAction::AirlockNotOnShip
    } else {
        match input.ship {
            ShipStatus::Orbit { body_orbit, capsule_orbit } => match capsule_orbit {
                Some(o) => InteractionAction::WarpToBody(o),
                None => match body_orbit {
                    Some(o) => InteractionAction::WarpToBody(o),
                    None => InteractionAction::BodyWithoutOrbit,
                },
            },
            ShipStatus::InTransit => InteractionAction::ShipInTransit,
            ShipStatus::Unknown => InteractionAction::ShipLocationUnknown,
        }
    }
}

/// The interaction keys: `E` closes an open station, and otherwise closes the
/// hand-craft window and uses the nearby interactable (opens a station, warps
/// from a capsule or an airlock); `C` toggles the hand-craft window, closing
/// any open station when it opens. Nothing happens while chat has focus, and
/// `E` takes precedence over `C`.
pub open spec fn interaction_next(ui: InteractionUi, input: InteractionInput) -> (InteractionUi, InteractionAction) {
    if input.chat_active {
        (ui, InteractionAction::Nothing)
    } else if input.interact_pressed {
        if ui.open_station is Some {
            (InteractionUi { open_station: None, ..ui }, InteractionAction::Nothing)
        } else {
            let ui2 = InteractionUi { hand_craft_open: false, ..ui };
            match input.nearby {
                Some((id, InteractableKind::Station)) => (InteractionUi { open_station: Some(id), ..ui2 }, InteractionAction::Nothing),
                Some((_, InteractableKind::Capsule)) => (ui2, InteractionAction::WarpToShip),
                Some((_, InteractableKind::Airlock)) => (ui2, airlock_action(input)),
                _ => (ui2, InteractionAction::Nothing),
            }
        }
    } else if input.hand_craft_pressed {
        if ui.hand_craft_open {
            (InteractionUi { hand_craft_open: false, ..ui }, InteractionAction::Nothing)
        } else {
            (InteractionUi { open_station: None, hand_craft_open: true }, InteractionAction::Nothing)
        }
    } else {
        (ui, InteractionAction::Nothing)
    }
}

fn airlock(input: &InteractionInput) -> (a: InteractionAction)
    ensures
        a == airlock_action(*input),
{
    if !input.on_ship {
        return InteractionAction::AirlockNotOnShip;
    }
    match input.ship {
        ShipStatus::Orbit { body_orbit, capsule_orbit } => match capsule_orbit {
            Some(o) => InteractionAction::WarpToBody(o),
            None => match body_orbit {
                Some(o) => InteractionAction::WarpToBody(o),
                None => InteractionAction::BodyWithoutOrbit,
            },
        },
        ShipStatus::InTransit => InteractionAction::ShipInTransit,
        ShipStatus::Unknown => InteractionAction::ShipLocationUnknown,
    }
}

/// Apply one frame of interaction input to the open windows, and say what
/// else has to happen.
pub fn handle_interaction_input(ui: &mut InteractionUi, input: &InteractionInput) -> (action: InteractionAction)
    ensures
        (*final(ui), action) == interaction_next(*old(ui), *input),
        !input.chat_active && input.interact_pressed && old(ui).open_station is None ==> !final(ui).hand_craft_open,
        !input.chat_active && input.interact_pressed && old(ui).open_station is Some
            ==> final(ui).open_station is None && final(ui).hand_craft_open == old(ui).hand_craft_open,
        input.chat_active ==> *final(ui) == *old(ui),
{
    if input.chat_active {
        return InteractionAction::Nothing;
    }
    if input.interact_pressed {
        if ui.open_station.is_some() {
            ui.open_station = None;
            return InteractionAction::Nothing;
        }
        if ui.hand_craft_open {
            ui.hand_craft_open = false;
        }
        return match input.nearby {
            Some((id, InteractableKind::Station)) => {
                ui.open_station = Some(id);
                InteractionAction::Nothing
            },
            Some((_, InteractableKind::Capsule)) => InteractionAction::WarpToShip,
            Some((_, InteractableKind::Airlock)) => airlock(input),
            _ => InteractionAction::Nothing,
        };
    }
    if input.hand_craft_pressed {
        if ui.hand_craft_open {
            ui.hand_craft_open = false;
        } else {
            ui.open_station = None;
            ui.hand_craft_open = true;
        }
    }
    InteractionAction::Nothing
}

/// Pressing `C` twice (with nothing else pressed and chat closed) leaves the
/// hand-craft window as it was, and no station open.
pub proof fn lemma_hand_craft_toggle_twice(ui: InteractionUi, input: InteractionInput)
    requires
        !input.chat_active,
        !input.interact_pressed,
        input.hand_craft_pressed,
    ensures
        interaction_next(interaction_next(ui, input).0, input).0.hand_craft_open == ui.hand_craft_open,
        interaction_next(interaction_next(ui, input).0, input).0.open_station is None,
{
}

/// At most one window is open after any frame that started with at most one
/// open.
pub proof fn lemma_one_window_open(ui: InteractionUi, input: InteractionInput)
    requires
        !(ui.open_station is Some && ui.hand_craft_open),
    ensures
        !(interaction_next(ui, input).0.open_station is Some && interaction_next(ui, input).0.hand_craft_open),
{
}


/// Pressing `E` with chat closed and no station open always leaves the
/// hand-craft window closed, whatever is nearby; with a station open it
/// closes the station and leaves the hand-craft window as it was.
pub proof fn lemma_interact_closes_hand_craft(ui: InteractionUi, input: InteractionInput)
    requires
        !input.chat_active,
        input.interact_pressed,
    ensures
        ui.open_station is None ==> !interaction_next(ui, input).0.hand_craft_open,
        ui.open_station is Some ==> interaction_next(ui, input).0.open_station is None
            && interaction_next(ui, input).0.hand_craft_open == ui.hand_craft_open,
{
}

} // verus!
