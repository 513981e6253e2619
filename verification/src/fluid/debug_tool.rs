use vstd::prelude::*;

verus! {

/// Number of fluids the pour tool cycles through.
pub const POUR_FLUID_COUNT: usize = 5;

/// The fluids the pour tool cycles through, in order.
pub open spec fn pour_fluid_name(i: int) -> Seq<char> {
    if i == 0 {
        "water"@
    } else if i == 1 {
        "lava"@
    } else if i == 2 {
        "steam"@
    } else if i == 3 {
        "toxic_gas"@
    } else {
        "smoke"@
    }
}

/// The debug pour tool: whether it is on, and which fluid it pours.
#[derive(Clone, Copy, Debug, PartialEq, Eq, Structural)]
pub struct FluidDebugTool {
    pub active: bool,
    pub fluid_index: usize,
}

impl Default for FluidDebugTool {
    fn default() -> (t: Self)
        ensures
            !t.active,
            t.fluid_index == 0,
    {
        FluidDebugTool { active: false, fluid_index: 0 }
    }
}

impl FluidDebugTool {
    /// Switch pouring on or off (F5).
    pub fn toggle(&mut self)
        ensures
            final(self).active == !old(self).active,
            final(self).fluid_index == old(self).fluid_index,
    {
        self.active = !self.active;
    }

    /// Move to the next fluid, after the last back to the first (F6).
    pub fn cycle(&mut self)
        requires
            old(self).fluid_index < usize::MAX,
        ensures
            final(self).fluid_index == (old(self).fluid_index + 1) % (POUR_FLUID_COUNT as int),
            final(self).active == old(self).active,
    {
        self.fluid_index = (self.fluid_index + 1) % POUR_FLUID_COUNT;
    }

    /// The name of the fluid being poured.
    pub fn fluid_name(&self) -> (s: String)
        requires
            self.fluid_index < POUR_FLUID_COUNT,
        ensures
            s@ == pour_fluid_name(self.fluid_index as int),
    {
        if self.fluid_index == 0 {
            "water".to_owned()
        } else if self.fluid_index == 1 {
            "lava".to_owned()
        } else if self.fluid_index == 2 {
            "steam".to_owned()
        } else if self.fluid_index == 3 {
            "toxic_gas".to_owned()
        } else {
            "smoke".to_owned()
        }
    }
}

/// Cycling through all the fluids comes back to the first one chosen.
pub proof fn lemma_cycle_returns(i: int)
    requires
        0 <= i < POUR_FLUID_COUNT,
    ensures
        ({
            let n = POUR_FLUID_COUNT as int;
            (((((i + 1) % n + 1) % n + 1) % n + 1) % n + 1) % n == i
        }),
{
}


/// Number of fluids the placement mode cycles through.
pub const PLACEMENT_FLUID_COUNT: usize = 3;

/// The fluids the placement mode cycles through, in order.
pub open spec fn placement_fluid_name(i: int) -> Seq<char> {
    if i == 0 {
        "water"@
    } else if i == 1 {
        "steam"@
    } else {
        "lava"@
    }
}

/// The debug placement mode: whether it is on, and which fluid it places.
#[derive(Clone, Copy, Debug, PartialEq, Eq, Structural)]
pub struct FluidPlacementMode {
    pub enabled: bool,
    pub fluid_index: usize,
}

impl Default for FluidPlacementMode {
    fn default() -> (m: Self)
        ensures
            !m.enabled,
            m.fluid_index == 0,
    {
        FluidPlacementMode { enabled: false, fluid_index: 0 }
    }
}

impl FluidPlacementMode {
    /// Switch placement on or off (F5).
    pub fn toggle(&mut self)
        ensures
            final(self).enabled == !old(self).enabled,
            final(self).fluid_index == old(self).fluid_index,
    {
        self.enabled = !self.enabled;
    }

    /// Move to the next fluid, after the last back to the first (F6).
    pub fn cycle(&mut self)
        requires
            old(self).fluid_index < usize::MAX,
        ensures
            final(self).fluid_index == (old(self).fluid_index + 1) % (PLACEMENT_FLUID_COUNT as int),
            final(self).enabled == old(self).enabled,
    {
        self.fluid_index = (self.fluid_index + 1) % PLACEMENT_FLUID_COUNT;
    }

    /// The name of the fluid being placed.
    pub fn fluid_name(&self) -> (s: String)
        requires
            self.fluid_index < PLACEMENT_FLUID_COUNT,
        ensures
            s@ == placement_fluid_name(self.fluid_index as int),
    {
        if self.fluid_index == 0 {
            "water".to_owned()
        } else if self.fluid_index == 1 {
            "steam".to_owned()
        } else {
            "lava".to_owned()
        }
    }
}

} // verus!
