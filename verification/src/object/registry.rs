use vstd::prelude::*;

use crate::name_index::{is_last_index, NameIndex};
use crate::object::definition::{validated_from, ObjectDef, ObjectId};

verus! {

pub open spec fn object_ids(defs: Seq<ObjectDef>) -> Seq<Seq<char>> {
    defs.map_values(|d: ObjectDef| d.id@)
}

/// Registry of all object definitions; an object's id is its position.
#[derive(Debug)]
pub struct ObjectRegistry {
    defs: Vec<ObjectDef>,
    name_to_id: NameIndex,
}

impl ObjectRegistry {
    #[verifier::type_invariant]
    spec fn inv(self) -> bool {
        &&& self.defs@.len() <= 65536
        &&& self.name_to_id.ids() == object_ids(self.defs@)
    }

    /// The registered (validated) definitions, in id order.
    pub closed spec fn defs(self) -> Seq<ObjectDef> {
        self.defs@
    }

    /// Build the registry from a list of definitions, validating each one;
    /// list order is id order.
    pub fn from_defs(defs: Vec<ObjectDef>) -> (r: Self)
        requires
            defs@.len() <= 65536,
            forall|i: int| 0 <= i < defs@.len() ==> #[trigger] defs@[i].size.0 * defs@[i].size.1 <= u32::MAX,
        ensures
            r.defs().len() == defs@.len(),
            forall|i: int| 0 <= i < defs@.len() ==> validated_from(defs@[i], #[trigger] r.defs()[i]),
    {
        let ghost given = defs@;
        let mut rest = defs;
        let mut validated: Vec<ObjectDef> = Vec::new();
        let mut name_to_id = NameIndex::new();
        while rest.len() > 0
            invariant
                validated@.len() + rest@.len() == given.len(),
                forall|i: int| 0 <= i < rest@.len() ==> #[trigger] rest@[i] == given[validated@.len() + i],
                forall|i: int| 0 <= i < validated@.len() ==> validated_from(given[i], #[trigger] validated@[i]),
                forall|i: int| 0 <= i < given.len() ==> #[trigger] given[i].size.0 * given[i].size.1 <= u32::MAX,
                name_to_id.ids() == object_ids(validated@),
            decreases rest@.len(),
        {
            let ghost k = validated@.len();
            let ghost rest0 = rest@;
            let mut def = rest.remove(0);
            proof {
                assert(def == given[k as int]);
            }
            def.validate();
            name_to_id.push(def.id.clone());
            validated.push(def);
            proof {
                assert(object_ids(validated@) =~= name_to_id.ids());
                assert forall|i: int| 0 <= i < rest@.len() implies #[trigger] rest@[i] == given[validated@.len() + i] by {
                    assert(rest@[i] == rest0[i + 1]);
                }
            }
        }
        ObjectRegistry { defs: validated, name_to_id }
    }

    pub fn get(&self, id: ObjectId) -> (d: &ObjectDef)
        requires
            (id.0 as int) < self.defs().len(),
        ensures
            *d == self.defs()[id.0 as int],
    {
        &self.defs[id.0 as usize]
    }

    pub fn try_get(&self, id: ObjectId) -> (d: Option<&ObjectDef>)
        ensures
            match d {
                Some(def) => (id.0 as int) < self.defs().len() && *def == self.defs()[id.0 as int],
                None => (id.0 as int) >= self.defs().len(),
            },
    {
        if (id.0 as usize) < self.defs.len() {
            Some(&self.defs[id.0 as usize])
        } else {
            None
        }
    }

    /// The id registered under `name` (the last one if registered twice).
    pub fn by_name(&self, name: &str) -> (r: Option<ObjectId>)
        ensures
            match r {
                Some(id) => is_last_index(object_ids(self.defs()), name@, id.0 as int)
                    && self.defs()[id.0 as int].id@ == name@,
                None => forall|i: int| 0 <= i < self.defs().len() ==> #[trigger] self.defs()[i].id@ != name@,
            },
    {
        proof {
            use_type_invariant(self);
        }
        match self.name_to_id.lookup(name) {
            Some(i) => {
                proof {
                    assert(object_ids(self.defs())[i as int] == self.defs()[i as int].id@);
                }
                Some(ObjectId(i as u16))
            },
            None => {
                proof {
                    assert forall|i: int| 0 <= i < self.defs().len() implies #[trigger] self.defs()[i].id@ != name@ by {
                        assert(object_ids(self.defs())[i] == self.defs()[i].id@);
                    }
                }
                None
            },
        }
    }

    pub fn len(&self) -> (n: usize)
        ensures
            n == self.defs().len(),
    {
        self.defs.len()
    }

    pub fn is_empty(&self) -> (b: bool)
        ensures
            b == (self.defs().len() == 0),
    {
        self.defs.len() == 0
    }
}

} // verus!
