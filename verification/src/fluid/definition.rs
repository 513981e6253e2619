use vstd::prelude::*;

use crate::fluid::cell::FluidId;
use crate::name_index::{is_last_index, NameIndex};

verus! {

pub fn default_flow_rate() -> (n: u8)
    ensures
        n == 6,
{
    6
}

pub fn default_light_opacity() -> (n: u8)
    ensures
        n == 2,
{
    2
}

/// Properties of a single fluid type (tile-based model). Its viscosity,
/// density and contact damage (fractional values) are kept by the
/// application beside this definition.
#[derive(Debug)]
pub struct FluidDef {
    pub id: String,
    pub color: [u8; 3],
    pub light_opacity: u8,
    pub flow_rate: u8,
    pub light_emission: [u8; 3],
}

pub open spec fn def_ids(defs: Seq<FluidDef>) -> Seq<Seq<char>> {
    defs.map_values(|d: FluidDef| d.id@)
}

/// Registry of all fluid definitions. Id 0 is reserved for "no fluid", so
/// the definition at position `i` has id `i + 1`.
#[derive(Debug)]
pub struct FluidRegistry {
    defs: Vec<FluidDef>,
    name_to_id: NameIndex,
}

impl FluidRegistry {
    #[verifier::type_invariant]
    spec fn inv(self) -> bool {
        &&& self.defs@.len() <= 255
        &&& self.name_to_id.ids() == def_ids(self.defs@)
    }

    pub closed spec fn defs(self) -> Seq<FluidDef> {
        self.defs@
    }

    pub fn from_defs(defs: Vec<FluidDef>) -> (r: Self)
        requires
            defs@.len() <= 255,
        ensures
            r.defs() == defs@,
    {
        let mut name_to_id = NameIndex::new();
        let n = defs.len();
        let mut i: usize = 0;
        while i < n
            invariant
                n == defs@.len(),
                0 <= i <= n,
                name_to_id.ids() == def_ids(defs@).subrange(0, i as int),
            decreases n - i,
        {
            name_to_id.push(defs[i].id.clone());
            proof {
                assert(def_ids(defs@).subrange(0, i as int + 1) =~= def_ids(defs@).subrange(0, i as int).push(defs@[i as int].id@));
            }
            i = i + 1;
        }
        proof {
            assert(def_ids(defs@).subrange(0, n as int) =~= def_ids(defs@));
        }
        FluidRegistry { defs, name_to_id }
    }

    /// Definition of a valid fluid id (`1..=len`).
    pub fn get(&self, id: FluidId) -> (d: &FluidDef)
        requires
            id.0 > 0,
            (id.0 as int) <= self.defs().len(),
        ensures
            *d == self.defs()[id.0 - 1],
    {
        &self.defs[(id.0 - 1) as usize]
    }

    /// The id of a registered fluid name (the last one if registered twice).
    pub fn by_name(&self, name: &str) -> (id: FluidId)
        requires
            exists|i: int| 0 <= i < self.defs().len() && #[trigger] self.defs()[i].id@ == name@,
        ensures
            id.0 >= 1,
            is_last_index(def_ids(self.defs()), name@, id.0 - 1),
            self.defs()[id.0 - 1].id@ == name@,
    {
        proof {
            use_type_invariant(self);
        }
        match self.name_to_id.lookup(name) {
            Some(i) => {
                proof {
                    assert(def_ids(self.defs())[i as int] == self.defs()[i as int].id@);
                }
                FluidId((i + 1) as u8)
            },
            None => {
                proof {
                    let i = choose|i: int| 0 <= i < self.defs().len() && #[trigger] self.defs()[i].id@ == name@;
                    assert(def_ids(self.defs())[i] == name@);
                }
                FluidId(0)
            },
        }
    }
}

} // verus!
