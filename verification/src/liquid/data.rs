use vstd::prelude::*;

verus! {

/// Index into the liquid registry. 0 = no liquid.
#[derive(Clone, Copy, Debug, PartialEq, Eq, Structural, Hash, Default)]
pub struct LiquidId(pub u8);

impl LiquidId {
    /// The id that stands for "no liquid".
    pub fn none() -> (r: LiquidId)
        ensures
            r.0 == 0,
    {
        LiquidId(0)
    }

    pub fn is_none(self) -> (r: bool)
        ensures
            r == (self.0 == 0),
    {
        self.0 == 0
    }
}

} // verus!
