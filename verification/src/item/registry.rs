use vstd::prelude::*;

use crate::item::definition::ItemDef;
use crate::name_index::{is_last_index, NameIndex};

verus! {

/// Compact item identifier: index into the item registry.
#[derive(Debug, Clone, Copy, PartialEq, Eq, Structural, Hash)]
pub struct ItemId(pub u16);

impl ItemId {
    /// The id of the first registered item (air).
    pub fn air() -> (r: ItemId)
        ensures
            r.0 == 0,
    {
        ItemId(0)
    }
}

pub open spec fn item_ids(defs: Seq<ItemDef>) -> Seq<Seq<char>> {
    defs.map_values(|d: ItemDef| d.id@)
}

/// Registry of all item definitions; an item's id is its position.
#[derive(Debug)]
pub struct ItemRegistry {
    defs: Vec<ItemDef>,
    name_to_id: NameIndex,
}

impl ItemRegistry {
    #[verifier::type_invariant]
    spec fn inv(self) -> bool {
        &&& self.defs@.len() <= 65536
        &&& self.name_to_id.ids() == item_ids(self.defs@)
    }

    /// The registered definitions, in id order.
    pub closed spec fn defs(self) -> Seq<ItemDef> {
        self.defs@
    }

    /// Build the registry from a list of definitions; list order is id order.
    pub fn from_defs(defs: Vec<ItemDef>) -> (r: Self)
        requires
            defs@.len() <= 65536,
        ensures
            r.defs() == defs@,
    {
        let mut name_to_id = NameIndex::new();
        let n = defs.len();
        let mut i: usize = 0;
        while i < n
            invariant
                n == defs@.len(),
                0 <= i <= n,
                name_to_id.ids() == item_ids(defs@).subrange(0, i as int),
            decreases n - i,
        {
            name_to_id.push(defs[i].id.clone());
            proof {
                assert(item_ids(defs@).subrange(0, i as int + 1) =~= item_ids(defs@).subrange(0, i as int).push(defs@[i as int].id@));
            }
            i = i + 1;
        }
        proof {
            assert(item_ids(defs@).subrange(0, n as int) =~= item_ids(defs@));
        }
        ItemRegistry { defs, name_to_id }
    }

    pub fn get(&self, id: ItemId) -> (d: &ItemDef)
        requires
            (id.0 as int) < self.defs().len(),
        ensures
            *d == self.defs()[id.0 as int],
    {
        &self.defs[id.0 as usize]
    }

    pub fn max_stack(&self, id: ItemId) -> (n: u16)
        requires
            (id.0 as int) < self.defs().len(),
        ensures
            n == self.defs()[id.0 as int].max_stack,
    {
        self.defs[id.0 as usize].max_stack
    }

    /// The id registered under `name` (the last one if registered twice).
    pub fn by_name(&self, name: &str) -> (id: ItemId)
        requires
            exists|i: int| 0 <= i < self.defs().len() && #[trigger] self.defs()[i].id@ == name@,
        ensures
            is_last_index(item_ids(self.defs()), name@, id.0 as int),
            self.defs()[id.0 as int].id@ == name@,
    {
        match self.try_by_name(name) {
            Some(id) => id,
            None => {
                proof {
                    let i = choose|i: int| 0 <= i < self.defs().len() && #[trigger] self.defs()[i].id@ == name@;
                    assert(item_ids(self.defs())[i] == name@);
                }
                ItemId(0)
            },
        }
    }

    /// The id registered under `name`, or `None` for an unknown name.
    pub fn try_by_name(&self, name: &str) -> (r: Option<ItemId>)
        ensures
            match r {
                Some(id) => is_last_index(item_ids(self.defs()), name@, id.0 as int)
                    && self.defs()[id.0 as int].id@ == name@,
                None => forall|i: int| 0 <= i < self.defs().len() ==> #[trigger] self.defs()[i].id@ != name@,
            },
    {
        proof {
            use_type_invariant(self);
        }
        match self.name_to_id.lookup(name) {
            Some(i) => {
                proof {
                    assert(item_ids(self.defs())[i as int] == self.defs()[i as int].id@);
                }
                Some(ItemId(i as u16))
            },
            None => {
                proof {
                    assert forall|i: int| 0 <= i < self.defs().len() implies #[trigger] self.defs()[i].id@ != name@ by {
                        assert(item_ids(self.defs())[i] == self.defs()[i].id@);
                    }
                }
                None
            },
        }
    }

    pub fn len(&self) -> (n: usize)
        ensures
            n == self.defs().len(),
    {
        self.defs.len()
    }

    pub fn is_empty(&self) -> (b: bool)
        ensures
            b == (self.defs().len() == 0),
    {
        self.defs.len() == 0
    }
}

} // verus!
