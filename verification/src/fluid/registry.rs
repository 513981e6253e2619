use vstd::prelude::*;

use crate::fluid::cell::FluidId;
use crate::name_index::{is_last_index, NameIndex};

verus! {

/// Properties of a single fluid or gas type. Its physical parameters
/// (fractional values) are kept by the application beside this definition.
#[derive(Debug)]
pub struct FluidDef {
    pub id: String,
    pub is_gas: bool,
    pub color: [u8; 4],
    pub light_emission: [u8; 3],
    pub effects: Vec<String>,
}

pub fn default_color() -> (c: [u8; 4])
    ensures
        c@ == seq![128u8, 128u8, 255u8, 180u8],
{
    [128, 128, 255, 180]
}

pub open spec fn fluid_ids(defs: Seq<FluidDef>) -> Seq<Seq<char>> {
    defs.map_values(|d: FluidDef| d.id@)
}

/// Runtime registry of all fluid types. Id 0 is reserved for "no fluid", so
/// the definition at position `i` has id `i + 1`.
#[derive(Debug)]
pub struct FluidRegistry {
    defs: Vec<FluidDef>,
    name_to_id: NameIndex,
}

impl FluidRegistry {
    #[verifier::type_invariant]
    spec fn inv(self) -> bool {
        &&& self.defs@.len() <= 255
        &&& self.name_to_id.ids() == fluid_ids(self.defs@)
    }

    /// The registered definitions; id `i` is position `i - 1`.
    pub closed spec fn defs(self) -> Seq<FluidDef> {
        self.defs@
    }

    pub fn from_defs(defs: Vec<FluidDef>) -> (r: Self)
        requires
            defs@.len() <= 255,
        ensures
            r.defs() == defs@,
    {
        let mut name_to_id = NameIndex::new();
        let n = defs.len();
        let mut i: usize = 0;
        while i < n
            invariant
                n == defs@.len(),
                0 <= i <= n,
                name_to_id.ids() == fluid_ids(defs@).subrange(0, i as int),
            decreases n - i,
        {
            name_to_id.push(defs[i].id.clone());
            proof {
                assert(fluid_ids(defs@).subrange(0, i as int + 1) =~= fluid_ids(defs@).subrange(0, i as int).push(defs@[i as int].id@));
            }
            i = i + 1;
        }
        proof {
            assert(fluid_ids(defs@).subrange(0, n as int) =~= fluid_ids(defs@));
        }
        FluidRegistry { defs, name_to_id }
    }

    /// Definition of a fluid id (not "no fluid").
    pub fn get(&self, id: FluidId) -> (d: &FluidDef)
        requires
            id.0 != 0,
            (id.0 as int) <= self.defs().len(),
        ensures
            *d == self.defs()[id.0 - 1],
    {
        &self.defs[(id.0 - 1) as usize]
    }

    /// The id of a registered fluid name (the last one if registered twice).
    pub fn by_name(&self, name: &str) -> (id: FluidId)
        requires
            exists|i: int| 0 <= i < self.defs().len() && #[trigger] self.defs()[i].id@ == name@,
        ensures
            is_last_index(fluid_ids(self.defs()), name@, id.0 - 1),
            self.defs()[id.0 - 1].id@ == name@,
    {
        match self.try_by_name(name) {
            Some(id) => id,
            None => {
                proof {
                    let i = choose|i: int| 0 <= i < self.defs().len() && #[trigger] self.defs()[i].id@ == name@;
                    assert(self.defs()[i].id@ != name@);
                }
                FluidId(0)
            },
        }
    }

    /// The id of a fluid name, or `None` if unknown.
    pub fn try_by_name(&self, name: &str) -> (r: Option<FluidId>)
        ensures
            match r {
                Some(id) => id.0 >= 1 && is_last_index(fluid_ids(self.defs()), name@, id.0 - 1)
                    && self.defs()[id.0 - 1].id@ == name@,
                None => forall|i: int| 0 <= i < self.defs().len() ==> #[trigger] self.defs()[i].id@ != name@,
            },
    {
        proof {
            use_type_invariant(self);
        }
        match self.name_to_id.lookup(name) {
            Some(i) => {
                proof {
                    assert(fluid_ids(self.defs())[i as int] == self.defs()[i as int].id@);
                }
                Some(FluidId((i + 1) as u8))
            },
            None => {
                proof {
                    assert forall|i: int| 0 <= i < self.defs().len() implies #[trigger] self.defs()[i].id@ != name@ by {
                        assert(fluid_ids(self.defs())[i] == self.defs()[i].id@);
                    }
                }
                None
            },
        }
    }

    /// Number of registered fluid types (excluding "no fluid").
    pub fn len(&self) -> (n: usize)
        ensures
            n == self.defs().len(),
    {
        self.defs.len()
    }

    pub fn is_empty(&self) -> (b: bool)
        ensures
            b == (self.defs().len() == 0),
    {
        self.defs.len() == 0
    }
}

} // verus!
