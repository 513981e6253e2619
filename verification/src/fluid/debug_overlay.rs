use vstd::prelude::*;

verus! {

/// Debug visualisation mode for fluid rendering.
#[derive(Clone, Copy, Debug, PartialEq, Eq, Structural)]
pub enum FluidDebugMode {
    /// Normal rendering (no debug overlay).
    Off,
    /// Heat-map of mass per cell.
    Mass,
    /// Surface cells bright, interior cells dim.
    Surface,
    /// Each fluid type in its own hue.
    FluidType,
    /// Depth darkening as grayscale.
    Depth,
}

/// The number the shader uniform uses for each mode.
pub open spec fn mode_number(m: FluidDebugMode) -> u32 {
    match m {
        FluidDebugMode::Off => 0,
        FluidDebugMode::Mass => 1,
        FluidDebugMode::Surface => 2,
        FluidDebugMode::FluidType => 3,
        FluidDebugMode::Depth => 4,
    }
}

impl Default for FluidDebugMode {
    fn default() -> (m: Self)
        ensures
            m == FluidDebugMode::Off,
    {
        FluidDebugMode::Off
    }
}

impl FluidDebugMode {
    /// Integer sent to the shader uniform.
    pub fn as_u32(self) -> (n: u32)
        ensures
            n == mode_number(self),
    {
        match self {
            FluidDebugMode::Off => 0,
            FluidDebugMode::Mass => 1,
            FluidDebugMode::Surface => 2,
            FluidDebugMode::FluidType => 3,
            FluidDebugMode::Depth => 4,
        }
    }

    /// The name shown in the debug panel.
    pub fn label(self) -> (s: String)
        ensures
            s@ == match self {
                FluidDebugMode::Off => "Off"@,
                FluidDebugMode::Mass => "Mass"@,
                FluidDebugMode::Surface => "Surface"@,
                FluidDebugMode::FluidType => "Fluid Type"@,
                FluidDebugMode::Depth => "Depth"@,
            },
    {
        match self {
            FluidDebugMode::Off => "Off".to_owned(),
            FluidDebugMode::Mass => "Mass".to_owned(),
            FluidDebugMode::Surface => "Surface".to_owned(),
            FluidDebugMode::FluidType => "Fluid Type".to_owned(),
            FluidDebugMode::Depth => "Depth".to_owned(),
        }
    }

    /// Every mode, in the order the panel lists them.
    pub fn all() -> (v: Vec<FluidDebugMode>)
        ensures
            v@ == seq![FluidDebugMode::Off, FluidDebugMode::Mass, FluidDebugMode::Surface,
                FluidDebugMode::FluidType, FluidDebugMode::Depth],
    {
        let mut v: Vec<FluidDebugMode> = Vec::new();
        v.push(FluidDebugMode::Off);
        v.push(FluidDebugMode::Mass);
        v.push(FluidDebugMode::Surface);
        v.push(FluidDebugMode::FluidType);
        v.push(FluidDebugMode::Depth);
        v
    }
}

/// Distinct modes send distinct numbers to the shader.
pub proof fn lemma_mode_numbers_distinct(a: FluidDebugMode, b: FluidDebugMode)
    ensures
        mode_number(a) == mode_number(b) <==> a == b,
{
}

/// Whether the fluid debug overlay is shown, and how.
#[derive(Clone, Copy, Debug)]
pub struct FluidDebugState {
    /// The debug panel and overlay are visible.
    pub visible: bool,
    /// The active visualisation mode.
    pub mode: FluidDebugMode,
    /// Grid lines between cells are drawn in debug mode.
    pub show_grid: bool,
}

impl Default for FluidDebugState {
    fn default() -> (s: Self)
        ensures
            !s.visible,
            s.mode == FluidDebugMode::Mass,
            s.show_grid,
    {
        FluidDebugState { visible: false, mode: FluidDebugMode::Mass, show_grid: true }
    }
}

} // verus!
