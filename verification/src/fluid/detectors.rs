use vstd::prelude::*;

use crate::fluid::cell::FluidId;

verus! {

/// Which fluid an entity was in last frame ("no fluid" when in air).
#[derive(Clone, Copy, Debug, PartialEq, Eq, Structural)]
pub struct FluidContactState {
    pub last_fluid: FluidId,
}

impl Default for FluidContactState {
    fn default() -> (s: Self)
        ensures
            s.last_fluid.0 == 0,
    {
        FluidContactState { last_fluid: FluidId(0) }
    }
}

/// The splash an entity makes when it goes from air into fluid or from fluid
/// into air: the fluid it entered, or on leaving, the fluid it left. No
/// splash while it stays in fluid or in air.
pub open spec fn splash_fluid(last: FluidId, current: FluidId) -> Option<FluidId> {
    if (last.0 != 0) == (current.0 != 0) {
        None
    } else if current.0 != 0 {
        Some(current)
    } else {
        Some(last)
    }
}

impl FluidContactState {
    /// Record the fluid the entity is in now; returns the fluid of the
    /// splash this transition makes, if any (see `splash_fluid`).
    pub fn update(&mut self, current: FluidId) -> (splash: Option<FluidId>)
        ensures
            splash == splash_fluid(old(self).last_fluid, current),
            final(self).last_fluid == current,
    {
        let was_in_fluid = self.last_fluid.0 != 0;
        let now_in_fluid = current.0 != 0;
        let splash = if was_in_fluid != now_in_fluid {
            if now_in_fluid {
                Some(current)
            } else {
                Some(self.last_fluid)
            }
        } else {
            None
        };
        self.last_fluid = current;
        splash
    }
}

/// A splash always names a real fluid, and going in and straight back out
/// splashes the same fluid twice.
pub proof fn lemma_splash_in_and_out(f: FluidId)
    requires
        f.0 != 0,
    ensures
        splash_fluid(FluidId(0), f) == Some(f),
        splash_fluid(f, FluidId(0)) == Some(f),
        forall|a: FluidId, b: FluidId| #[trigger] splash_fluid(a, b) matches Some(s) ==> s.0 != 0,
{
}

} // verus!
