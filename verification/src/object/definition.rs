use vstd::prelude::*;

use crate::item::definition::{DropDef, ItemDef, ItemType, Rarity};

verus! {

/// Compact object identifier: index into the object registry.
#[derive(Debug, Clone, Copy, PartialEq, Eq, Structural, Hash)]
pub struct ObjectId(pub u16);

impl ObjectId {
    /// The placeholder object at index 0 (also marks a removed object).
    pub fn none() -> (r: ObjectId)
        ensures
            r.0 == 0,
    {
        ObjectId(0)
    }

    pub fn is_none(self) -> (b: bool)
        ensures
            b == (self.0 == 0),
    {
        self.0 == 0
    }
}

#[derive(Debug, Clone, Copy, PartialEq, Eq, Structural)]
pub enum PlacementRule {
    Floor,
    Wall,
    Ceiling,
    FloorOrWall,
    Any,
}

#[derive(Debug, Clone)]
pub enum ObjectType {
    Decoration,
    Container { slots: u16 },
    LightSource,
    CraftingStation { station_id: String },
}

pub fn default_solid_mask() -> (m: Vec<bool>)
    ensures
        m@ == seq![true],
{
    let mut m: Vec<bool> = Vec::new();
    m.push(true);
    m
}

pub fn default_light_emission() -> (e: [u8; 3])
    ensures
        e@ == seq![0u8, 0u8, 0u8],
{
    [0, 0, 0]
}

pub fn default_max_stack() -> (n: u16)
    ensures
        n == 99,
{
    99
}

pub fn default_one() -> (n: u32)
    ensures
        n == 1,
{
    1
}

/// Optional inline item definition. When present on an object definition,
/// an item definition is generated for the object.
#[derive(Debug, Clone)]
pub struct AutoItemConfig {
    /// Override item id. Defaults to the object id if not set.
    pub item_id: Option<String>,
    pub description: String,
    pub max_stack: u16,
    pub rarity: Rarity,
    pub item_type: ItemType,
    /// Explicit icon path (relative to the object folder).
    pub icon: Option<String>,
}

/// Definition of a placeable object. Animation speed and flicker parameters
/// (fractional values) are kept by the application beside this definition.
#[derive(Debug)]
pub struct ObjectDef {
    pub id: String,
    pub display_name: String,
    /// (width, height) in tiles.
    pub size: (u32, u32),
    pub sprite: String,
    /// One entry per tile, row-major from the bottom row.
    pub solid_mask: Vec<bool>,
    pub placement: PlacementRule,
    pub light_emission: [u8; 3],
    pub object_type: ObjectType,
    pub drops: Vec<DropDef>,
    pub sprite_columns: u32,
    pub sprite_rows: u32,
    pub auto_item: Option<AutoItemConfig>,
    pub background: bool,
}

/// The id of the item generated for an object: the configured override, or
/// the object's own id.
pub open spec fn auto_item_id(def: ObjectDef, config: AutoItemConfig) -> Seq<char> {
    match config.item_id {
        Some(s) => s@,
        None => def.id@,
    }
}

/// `new` is `old` after validation: the solid mask has exactly one entry per
/// tile (truncated, or padded with non-solid tiles), and an object with an
/// auto item but no drops drops one of that item.
pub open spec fn validated_from(old: ObjectDef, new: ObjectDef) -> bool {
    let expected = (old.size.0 * old.size.1) as int;
    &&& new.id == old.id
    &&& new.display_name == old.display_name
    &&& new.size == old.size
    &&& new.sprite == old.sprite
    &&& new.placement == old.placement
    &&& new.light_emission == old.light_emission
    &&& new.object_type == old.object_type
    &&& new.sprite_columns == old.sprite_columns
    &&& new.sprite_rows == old.sprite_rows
    &&& new.auto_item == old.auto_item
    &&& new.background == old.background
    &&& new.solid_mask@.len() == expected
    &&& forall|i: int| 0 <= i < expected ==> #[trigger] new.solid_mask@[i] == (i < old.solid_mask@.len() && old.solid_mask@[i])
    &&& if old.drops@.len() == 0 && old.auto_item is Some {
        &&& new.drops@.len() == 1
        &&& new.drops@[0].item_id@ == auto_item_id(old, old.auto_item.unwrap())
        &&& new.drops@[0].min == 1
        &&& new.drops@[0].max == 1
    } else {
        new.drops == old.drops
    }
}

/// std's `format!("{}{}", a, b)`: the text of `a` followed by the text
/// of `b`.
#[verifier::external_body]
fn concat(a: &str, b: &str) -> (r: String)
    ensures
        r@ == a@ + b@,
{
    format!("{}{}", a, b)
}

fn copy_string(s: &String) -> (r: String)
    ensures
        r@ == s@,
{
    s.clone()
}

impl ObjectDef {
    /// Generate an item definition from the auto item config.
    /// `base_path` is the asset directory used to resolve relative icon paths.
    pub fn generate_item_def(&self, base_path: &str) -> (r: Option<ItemDef>)
        ensures
            match self.auto_item {
                None => r is None,
                Some(config) => r is Some && {
                    let d = r.unwrap();
                    &&& d.id@ == auto_item_id(*self, config)
                    &&& d.display_name@ == self.display_name@
                    &&& d.description@ == config.description@
                    &&& d.max_stack == config.max_stack
                    &&& d.rarity == config.rarity
                    &&& d.item_type == config.item_type
                    &&& match config.icon {
                        Some(i) => d.icon is Some && d.icon.unwrap()@ == base_path@ + i@,
                        None => d.icon is None,
                    }
                    &&& d.placeable is None
                    &&& d.placeable_object is Some && d.placeable_object.unwrap()@ == self.id@
                    &&& d.equipment_slot is None
                },
            },
    {
        let config = match &self.auto_item {
            Some(c) => c,
            None => return None,
        };
        let item_id = match &config.item_id {
            Some(s) => copy_string(s),
            None => copy_string(&self.id),
        };
        let icon = match &config.icon {
            Some(i) => Some(concat(base_path, i.as_str())),
            None => None,
        };
        Some(ItemDef {
            id: item_id,
            display_name: copy_string(&self.display_name),
            description: copy_string(&config.description),
            max_stack: config.max_stack,
            rarity: config.rarity,
            item_type: config.item_type,
            icon,
            placeable: None,
            placeable_object: Some(copy_string(&self.id)),
            equipment_slot: None,
        })
    }

    /// Whether the tile at `(rel_x, rel_y)` relative to the anchor (bottom-left)
    /// is solid; tiles outside the mask are not.
    pub fn is_tile_solid(&self, rel_x: u32, rel_y: u32) -> (b: bool)
        requires
            rel_y * self.size.0 + rel_x <= u32::MAX,
        ensures
            ({
                let idx = rel_y * self.size.0 + rel_x;
                b == (idx < self.solid_mask@.len() && self.solid_mask@[idx])
            }),
    {
        let idx = (rel_y * self.size.0 + rel_x) as usize;
        if idx < self.solid_mask.len() {
            self.solid_mask[idx]
        } else {
            false
        }
    }

    /// Make the solid mask match the size (padding with non-solid tiles or
    /// truncating), and give an object with an auto item but no drops a drop
    /// of that item.
    pub fn validate(&mut self)
        requires
            old(self).size.0 * old(self).size.1 <= u32::MAX,
        ensures
            validated_from(*old(self), *final(self)),
    {
        let expected = (self.size.0 * self.size.1) as usize;
        let old_len = self.solid_mask.len();
        if old_len != expected {
            self.solid_mask.resize(expected, false);
            proof {
                assert forall|i: int| 0 <= i < expected implies #[trigger] self.solid_mask@[i]
                    == (i < old(self).solid_mask@.len() && old(self).solid_mask@[i]) by {
                    if i < old_len {
                        if expected <= old_len {
                            assert(self.solid_mask@ == old(self).solid_mask@.subrange(0, expected as int));
                        } else {
                            assert(self.solid_mask@.subrange(0, old_len as int) == old(self).solid_mask@);
                            assert(self.solid_mask@.subrange(0, old_len as int)[i] == self.solid_mask@[i]);
                        }
                    }
                }
            }
        }
        if self.drops.len() == 0 {
            let item_id = match &self.auto_item {
                Some(config) => match &config.item_id {
                    Some(s) => Some(copy_string(s)),
                    None => Some(copy_string(&self.id)),
                },
                None => None,
            };
            match item_id {
                Some(item_id) => {
                    let mut drops: Vec<DropDef> = Vec::new();
                    drops.push(DropDef { item_id, min: 1, max: 1 });
                    self.drops = drops;
                },
                None => {},
            }
        }
    }
}

} // verus!
