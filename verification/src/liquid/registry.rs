use vstd::prelude::*;

use crate::liquid::data::LiquidId;
use crate::name_index::{is_last_index, NameIndex};

verus! {

/// What happens when this liquid touches the liquid named `other`.
#[derive(Debug, Clone)]
pub struct LiquidReaction {
    pub other: String,
    pub produce_tile: Option<String>,
    pub consume_both: bool,
}

/// A liquid type. Its density, viscosity, colour, contact damage and swim
/// speed (fractional values) are kept by the application beside this definition.
#[derive(Debug)]
pub struct LiquidDef {
    pub name: String,
    pub light_emission: [u8; 3],
    pub light_opacity: u8,
    pub reactions: Vec<LiquidReaction>,
}

pub open spec fn liquid_names(defs: Seq<LiquidDef>) -> Seq<Seq<char>> {
    defs.map_values(|d: LiquidDef| d.name@)
}

/// The liquid named `other` has id `b` (the last registration of the name wins).
pub open spec fn names_liquid(names: Seq<Seq<char>>, other: Seq<char>, b: LiquidId) -> bool {
    b.0 >= 1 && is_last_index(names, other, b.0 - 1)
}

/// `ri` is the last reaction of `reactions` whose other liquid has id `b`.
pub open spec fn is_last_reaction(names: Seq<Seq<char>>, reactions: Seq<LiquidReaction>, b: LiquidId, ri: int) -> bool {
    &&& 0 <= ri < reactions.len()
    &&& names_liquid(names, reactions[ri].other@, b)
    &&& forall|k: int| ri < k < reactions.len() ==> !names_liquid(names, #[trigger] reactions[k].other@, b)
}

/// Registry of liquid types. Id 0 is "no liquid", so the definition at
/// position `i` has id `i + 1`.
#[derive(Debug)]
pub struct LiquidRegistry {
    defs: Vec<LiquidDef>,
    name_to_id: NameIndex,
}

impl LiquidRegistry {
    #[verifier::type_invariant]
    spec fn inv(self) -> bool {
        &&& self.defs@.len() <= 255
        &&& self.name_to_id.ids() == liquid_names(self.defs@)
    }

    /// The registered definitions; id `i` is position `i - 1`.
    pub closed spec fn defs(self) -> Seq<LiquidDef> {
        self.defs@
    }

    /// An empty registry.
    pub fn new() -> (r: Self)
        ensures
            r.defs().len() == 0,
    {
        let defs: Vec<LiquidDef> = Vec::new();
        let name_to_id = NameIndex::new();
        proof {
            assert(liquid_names(defs@) =~= Seq::<Seq<char>>::empty());
        }
        LiquidRegistry { defs, name_to_id }
    }

    pub fn from_defs(defs: Vec<LiquidDef>) -> (r: Self)
        requires
            defs@.len() <= 255,
        ensures
            r.defs() == defs@,
    {
        let mut name_to_id = NameIndex::new();
        let n = defs.len();
        let mut i: usize = 0;
        while i < n
            invariant
                n == defs@.len(),
                0 <= i <= n,
                name_to_id.ids() == liquid_names(defs@).subrange(0, i as int),
            decreases n - i,
        {
            name_to_id.push(defs[i].name.clone());
            proof {
                assert(liquid_names(defs@).subrange(0, i as int + 1) =~= liquid_names(defs@).subrange(0, i as int).push(defs@[i as int].name@));
            }
            i = i + 1;
        }
        proof {
            assert(liquid_names(defs@).subrange(0, n as int) =~= liquid_names(defs@));
        }
        LiquidRegistry { defs, name_to_id }
    }

    /// All definitions, in id order (starting at id 1).
    pub fn all_defs(&self) -> (d: &Vec<LiquidDef>)
        ensures
            d@ == self.defs(),
    {
        &self.defs
    }

    pub fn len(&self) -> (n: usize)
        ensures
            n == self.defs().len(),
    {
        self.defs.len()
    }

    pub fn is_empty(&self) -> (b: bool)
        ensures
            b == (self.defs().len() == 0),
    {
        self.defs.len() == 0
    }

    /// Definition of a liquid id; `None` for "no liquid" and unknown ids.
    pub fn get(&self, id: LiquidId) -> (r: Option<&LiquidDef>)
        ensures
            match r {
                Some(d) => 1 <= id.0 <= self.defs().len() && *d == self.defs()[id.0 - 1],
                None => id.0 == 0 || id.0 > self.defs().len(),
            },
    {
        if id.is_none() {
            return None;
        }
        let i = (id.0 - 1) as usize;
        if i < self.defs.len() {
            Some(&self.defs[i])
        } else {
            None
        }
    }

    /// The id of a liquid name; "no liquid" for an unknown name.
    pub fn by_name(&self, name: &str) -> (id: LiquidId)
        ensures
            id.0 == 0 <==> forall|i: int| 0 <= i < self.defs().len() ==> #[trigger] self.defs()[i].name@ != name@,
            id.0 != 0 ==> names_liquid(liquid_names(self.defs()), name@, id),
    {
        proof {
            use_type_invariant(self);
        }
        match self.name_to_id.lookup(name) {
            Some(i) => {
                proof {
                    assert(liquid_names(self.defs())[i as int] == self.defs()[i as int].name@);
                }
                LiquidId((i + 1) as u8)
            },
            None => {
                proof {
                    assert forall|i: int| 0 <= i < self.defs().len() implies #[trigger] self.defs()[i].name@ != name@ by {
                        assert(liquid_names(self.defs())[i] == self.defs()[i].name@);
                    }
                }
                LiquidId(0)
            },
        }
    }

    /// The reaction of liquid `a` with liquid `b`: among `a`'s reactions, the
    /// last one whose other liquid is `b`.
    pub fn get_reaction(&self, a: LiquidId, b: LiquidId) -> (r: Option<&LiquidReaction>)
        ensures
            match r {
                Some(reaction) => 1 <= a.0 <= self.defs().len() && exists|ri: int|
                    is_last_reaction(liquid_names(self.defs()), self.defs()[a.0 - 1].reactions@, b, ri)
                    && *reaction == #[trigger] self.defs()[a.0 - 1].reactions@[ri],
                None => a.0 == 0 || a.0 > self.defs().len() || forall|ri: int|
                    0 <= ri < self.defs()[a.0 - 1].reactions@.len()
                    ==> !names_liquid(liquid_names(self.defs()), #[trigger] self.defs()[a.0 - 1].reactions@[ri].other@, b),
            },
    {
        proof {
            use_type_invariant(self);
        }
        let def = match self.get(a) {
            Some(d) => d,
            None => return None,
        };
        let n = def.reactions.len();
        let mut ri: usize = n;
        while ri > 0
            invariant
                ri <= n,
                n == def.reactions@.len(),
                1 <= a.0 <= self.defs().len(),
                *def == self.defs()[a.0 - 1],
                self.name_to_id.ids() == liquid_names(self.defs@),
                self.defs@.len() <= 255,
                forall|k: int| ri <= k < n ==> !names_liquid(liquid_names(self.defs()), #[trigger] def.reactions@[k].other@, b),
            decreases ri,
        {
            ri = ri - 1;
            let reaction = &def.reactions[ri];
            match self.name_to_id.lookup(reaction.other.as_str()) {
                Some(j) => {
                    if j + 1 == b.0 as usize {
                        return Some(reaction);
                    }
                    proof {
                        if names_liquid(liquid_names(self.defs()), reaction.other@, b) {
                            assert(liquid_names(self.defs())[b.0 - 1] == reaction.other@);
                        }
                    }
                },
                None => {},
            }
        }
        None
    }
}

impl Default for LiquidRegistry {
    fn default() -> (r: LiquidRegistry)
        ensures
            r.defs().len() == 0,
    {
        LiquidRegistry::new()
    }
}

} // verus!
