use vstd::prelude::*;

use crate::fluid::cell::FluidId;
use crate::fluid::registry::{fluid_ids, FluidDef, FluidRegistry};
use crate::name_index::is_last_index;

verus! {

/// The spatial relationship between two reacting fluids.
#[derive(Debug, Clone, Copy, PartialEq, Eq, Structural)]
pub enum Adjacency {
    Any,
    Above,
    Below,
    Side,
}

/// A fluid reaction with its fluids resolved to ids. Mass thresholds,
/// consumed amounts and the produced tile are kept by the application beside it.
#[derive(Debug, Clone, Copy)]
pub struct CompiledReaction {
    pub fluid_a: FluidId,
    pub fluid_b: FluidId,
    pub adjacency: Adjacency,
    pub result_fluid: Option<FluidId>,
    pub byproduct_fluid: Option<FluidId>,
}

/// A reaction applies to fluids `a` and `b` (in either order) meeting with
/// the given adjacency; `Any` on either side matches every adjacency.
pub open spec fn reaction_matches(r: CompiledReaction, a: FluidId, b: FluidId, adjacency: Adjacency) -> bool {
    &&& (r.fluid_a == a && r.fluid_b == b) || (r.fluid_a == b && r.fluid_b == a)
    &&& r.adjacency == Adjacency::Any || adjacency == Adjacency::Any || r.adjacency == adjacency
}

/// `i` is the first reaction of `rs` that applies.
pub open spec fn is_first_match(rs: Seq<CompiledReaction>, a: FluidId, b: FluidId, adjacency: Adjacency, i: int) -> bool {
    &&& 0 <= i < rs.len()
    &&& reaction_matches(rs[i], a, b, adjacency)
    &&& forall|j: int| 0 <= j < i ==> !reaction_matches(#[trigger] rs[j], a, b, adjacency)
}

/// Runtime registry of compiled fluid reactions.
#[derive(Debug)]
pub struct FluidReactionRegistry {
    pub reactions: Vec<CompiledReaction>,
}

fn adjacency_eq(x: Adjacency, y: Adjacency) -> (r: bool)
    ensures
        r == (x == y),
{
    x == y
}

impl FluidReactionRegistry {
    /// Index of the first reaction that applies to the pair, in either order.
    pub fn find_reaction_index(&self, a: FluidId, b: FluidId, adjacency: &Adjacency) -> (r: Option<usize>)
        ensures
            match r {
                Some(i) => is_first_match(self.reactions@, a, b, *adjacency, i as int),
                None => forall|j: int| 0 <= j < self.reactions@.len()
                    ==> !reaction_matches(#[trigger] self.reactions@[j], a, b, *adjacency),
            },
    {
        let n = self.reactions.len();
        let mut i: usize = 0;
        while i < n
            invariant
                n == self.reactions@.len(),
                0 <= i <= n,
                forall|j: int| 0 <= j < i ==> !reaction_matches(#[trigger] self.reactions@[j], a, b, *adjacency),
            decreases n - i,
        {
            let r = &self.reactions[i];
            let ids_match = (r.fluid_a.0 == a.0 && r.fluid_b.0 == b.0) || (r.fluid_a.0 == b.0 && r.fluid_b.0 == a.0);
            let adj_match = adjacency_eq(r.adjacency, Adjacency::Any) || adjacency_eq(*adjacency, Adjacency::Any)
                || adjacency_eq(r.adjacency, *adjacency);
            if ids_match && adj_match {
                return Some(i);
            }
            i = i + 1;
        }
        None
    }

    /// The first reaction that applies to the pair, in either order.
    pub fn find_reaction(&self, a: FluidId, b: FluidId, adjacency: &Adjacency) -> (r: Option<&CompiledReaction>)
        ensures
            match r {
                Some(reaction) => exists|i: int| is_first_match(self.reactions@, a, b, *adjacency, i)
                    && *reaction == self.reactions@[i],
                None => forall|j: int| 0 <= j < self.reactions@.len()
                    ==> !reaction_matches(#[trigger] self.reactions@[j], a, b, *adjacency),
            },
    {
        match self.find_reaction_index(a, b, adjacency) {
            Some(i) => Some(&self.reactions[i]),
            None => None,
        }
    }
}

/// Which reaction applies does not depend on the order of the two fluids.
pub proof fn lemma_find_reaction_symmetric(rs: Seq<CompiledReaction>, a: FluidId, b: FluidId, adjacency: Adjacency, i: int)
    ensures
        is_first_match(rs, a, b, adjacency, i) == is_first_match(rs, b, a, adjacency, i),
{
    assert forall|j: int| 0 <= j < rs.len() implies
        reaction_matches(#[trigger] rs[j], a, b, adjacency) == reaction_matches(rs[j], b, a, adjacency) by {
    }
}


/// A fluid reaction with its fluids still named, as the data files give it.
/// Mass thresholds, consumed amounts and the produced tile are kept by the
/// application beside it.
#[derive(Debug, Clone)]
pub struct ReactionNames {
    pub fluid_a: String,
    pub fluid_b: String,
    pub adjacency: Adjacency,
    pub result_fluid: Option<String>,
    pub byproduct_fluid: Option<String>,
}

/// `name` is registered among `defs`.
pub open spec fn registered(defs: Seq<FluidDef>, name: Seq<char>) -> bool {
    exists|i: int| 0 <= i < defs.len() && #[trigger] defs[i].id@ == name
}

/// `id` is the id registered for `name` (its last registration).
pub open spec fn names_fluid(defs: Seq<FluidDef>, name: Seq<char>, id: FluidId) -> bool {
    id.0 >= 1 && is_last_index(fluid_ids(defs), name, id.0 - 1)
}

/// An optional name and an optional id agree: both absent, or the id is the
/// name's.
pub open spec fn names_optional(defs: Seq<FluidDef>, name: Option<String>, id: Option<FluidId>) -> bool {
    match (name, id) {
        (None, None) => true,
        (Some(n), Some(i)) => names_fluid(defs, n@, i),
        _ => false,
    }
}

/// Every fluid a reaction names is registered.
pub open spec fn reaction_names_registered(defs: Seq<FluidDef>, r: ReactionNames) -> bool {
    &&& registered(defs, r.fluid_a@)
    &&& registered(defs, r.fluid_b@)
    &&& r.result_fluid matches Some(n) ==> registered(defs, n@)
    &&& r.byproduct_fluid matches Some(n) ==> registered(defs, n@)
}

/// `c` is `r` with every fluid name replaced by its id.
pub open spec fn compiled_from(defs: Seq<FluidDef>, r: ReactionNames, c: CompiledReaction) -> bool {
    &&& names_fluid(defs, r.fluid_a@, c.fluid_a)
    &&& names_fluid(defs, r.fluid_b@, c.fluid_b)
    &&& c.adjacency == r.adjacency
    &&& names_optional(defs, r.result_fluid, c.result_fluid)
    &&& names_optional(defs, r.byproduct_fluid, c.byproduct_fluid)
}

fn resolve_optional(name: &Option<String>, fluids: &FluidRegistry) -> (id: Option<FluidId>)
    requires
        name matches Some(n) ==> registered(fluids.defs(), n@),
    ensures
        names_optional(fluids.defs(), *name, id),
{
    match name {
        Some(n) => Some(fluids.by_name(n.as_str())),
        None => None,
    }
}

impl FluidReactionRegistry {
    /// Build the registry by resolving the fluid names of each reaction to
    /// their ids; reactions keep their order.
    pub fn from_defs(defs: &Vec<ReactionNames>, fluids: &FluidRegistry) -> (r: Self)
        requires
            forall|i: int| 0 <= i < defs@.len() ==> reaction_names_registered(fluids.defs(), #[trigger] defs@[i]),
        ensures
            r.reactions@.len() == defs@.len(),
            forall|i: int| 0 <= i < defs@.len() ==> compiled_from(fluids.defs(), defs@[i], #[trigger] r.reactions@[i]),
    {
        let mut reactions: Vec<CompiledReaction> = Vec::new();
        let n = defs.len();
        let mut i: usize = 0;
        while i < n
            invariant
                n == defs@.len(),
                0 <= i <= n,
                reactions@.len() == i,
                forall|k: int| 0 <= k < defs@.len() ==> reaction_names_registered(fluids.defs(), #[trigger] defs@[k]),
                forall|k: int| 0 <= k < i ==> compiled_from(fluids.defs(), defs@[k], #[trigger] reactions@[k]),
            decreases n - i,
        {
            let d = &defs[i];
            assert(reaction_names_registered(fluids.defs(), defs@[i as int]));
            let a = fluids.by_name(d.fluid_a.as_str());
            let b = fluids.by_name(d.fluid_b.as_str());
            let result_fluid = resolve_optional(&d.result_fluid, fluids);
            let byproduct_fluid = resolve_optional(&d.byproduct_fluid, fluids);
            reactions.push(CompiledReaction { fluid_a: a, fluid_b: b, adjacency: d.adjacency, result_fluid, byproduct_fluid });
            i = i + 1;
        }
        FluidReactionRegistry { reactions }
    }
}

} // verus!
