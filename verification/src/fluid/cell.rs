use vstd::prelude::*;

verus! {

/// Compact fluid type identifier: index into the fluid registry, 0 = no fluid.
#[derive(Debug, Clone, Copy, PartialEq, Eq, Structural, Hash, Default)]
pub struct FluidId(pub u8);

impl FluidId {
    /// The id that stands for "no fluid".
    pub fn none() -> (r: FluidId)
        ensures
            r.0 == 0,
    {
        FluidId(0)
    }
}

} // verus!
