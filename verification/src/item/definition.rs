use vstd::prelude::*;

verus! {

#[derive(Debug, Clone, Copy, PartialEq, Eq, Structural, Hash)]
pub enum Rarity {
    Common,
    Uncommon,
    Rare,
    Legendary,
}

impl Rarity {
    /// The rarity an item has when its definition names none.
    pub fn default_rarity() -> (r: Rarity)
        ensures
            r == Rarity::Common,
    {
        Rarity::Common
    }
}

#[derive(Debug, Clone, Copy, PartialEq, Eq, Structural, Hash)]
pub enum ItemType {
    Block,
    Resource,
    Tool,
    Weapon,
    Armor,
    Consumable,
    Material,
}

impl ItemType {
    /// The item type an item has when its definition names none.
    pub fn default_type() -> (t: ItemType)
        ensures
            t == ItemType::Block,
    {
        ItemType::Block
    }
}

#[derive(Debug, Clone, Copy, PartialEq, Eq, Structural, Hash)]
pub enum EquipmentSlot {
    Head,
    Chest,
    Legs,
    Back,
    Accessory1,
    Accessory2,
    Accessory3,
    Accessory4,
    Weapon1,
    Weapon2,
    Pet,
    CosmeticHead,
    CosmeticChest,
    CosmeticLegs,
    CosmeticBack,
}

/// Number of equipment slots.
pub const EQUIPMENT_SLOT_COUNT: usize = 15;

/// Position of a slot in the fixed slot order (declaration order).
pub open spec fn slot_position(slot: EquipmentSlot) -> int {
    match slot {
        EquipmentSlot::Head => 0,
        EquipmentSlot::Chest => 1,
        EquipmentSlot::Legs => 2,
        EquipmentSlot::Back => 3,
        EquipmentSlot::Accessory1 => 4,
        EquipmentSlot::Accessory2 => 5,
        EquipmentSlot::Accessory3 => 6,
        EquipmentSlot::Accessory4 => 7,
        EquipmentSlot::Weapon1 => 8,
        EquipmentSlot::Weapon2 => 9,
        EquipmentSlot::Pet => 10,
        EquipmentSlot::CosmeticHead => 11,
        EquipmentSlot::CosmeticChest => 12,
        EquipmentSlot::CosmeticLegs => 13,
        EquipmentSlot::CosmeticBack => 14,
    }
}

impl EquipmentSlot {
    /// Position of this slot in the fixed slot order.
    pub fn index(self) -> (i: usize)
        ensures
            i == slot_position(self),
            i < EQUIPMENT_SLOT_COUNT,
    {
        match self {
            EquipmentSlot::Head => 0,
            EquipmentSlot::Chest => 1,
            EquipmentSlot::Legs => 2,
            EquipmentSlot::Back => 3,
            EquipmentSlot::Accessory1 => 4,
            EquipmentSlot::Accessory2 => 5,
            EquipmentSlot::Accessory3 => 6,
            EquipmentSlot::Accessory4 => 7,
            EquipmentSlot::Weapon1 => 8,
            EquipmentSlot::Weapon2 => 9,
            EquipmentSlot::Pet => 10,
            EquipmentSlot::CosmeticHead => 11,
            EquipmentSlot::CosmeticChest => 12,
            EquipmentSlot::CosmeticLegs => 13,
            EquipmentSlot::CosmeticBack => 14,
        }
    }
}

/// Distinct slots have distinct positions, and every position is in range.
pub proof fn lemma_slot_position_injective(a: EquipmentSlot, b: EquipmentSlot)
    ensures
        0 <= slot_position(a) < EQUIPMENT_SLOT_COUNT,
        slot_position(a) == slot_position(b) <==> a == b,
{
}

pub fn default_max_stack() -> (n: u16)
    ensures
        n == 99,
{
    99
}

/// Definition of an item. Stat bonuses (fractional values) are kept by the
/// application beside this definition.
#[derive(Debug, Clone)]
pub struct ItemDef {
    pub id: String,
    pub display_name: String,
    pub description: String,
    pub max_stack: u16,
    pub rarity: Rarity,
    pub item_type: ItemType,
    pub icon: Option<String>,
    pub placeable: Option<String>,
    pub placeable_object: Option<String>,
    pub equipment_slot: Option<EquipmentSlot>,
}

pub fn default_drop_min() -> (n: u16)
    ensures
        n == 1,
{
    1
}

pub fn default_drop_max() -> (n: u16)
    ensures
        n == 1,
{
    1
}

/// What an object or tile drops when broken. The drop chance (a fraction)
/// is kept by the application beside this definition.
#[derive(Debug, Clone)]
pub struct DropDef {
    pub item_id: String,
    pub min: u16,
    pub max: u16,
}

} // verus!
