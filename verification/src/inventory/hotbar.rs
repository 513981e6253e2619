use vstd::prelude::*;

verus! {

/// A single hotbar slot with left/right hand items.
#[derive(Clone, Debug)]
pub struct HotbarSlot {
    pub left_hand: Option<String>,
    pub right_hand: Option<String>,
}

impl HotbarSlot {
    /// A slot with nothing in either hand.
    pub fn empty() -> (s: HotbarSlot)
        ensures
            s.left_hand is None,
            s.right_hand is None,
    {
        HotbarSlot { left_hand: None, right_hand: None }
    }
}

/// Number of hotbar slots.
pub const HOTBAR_SLOTS: usize = 6;

/// Player hotbar (six slots, each with a left- and right-hand item).
#[derive(Debug)]
pub struct Hotbar {
    pub slots: [HotbarSlot; 6],
    pub active_slot: usize,
    pub locked: bool,
}

impl Hotbar {
    pub fn new() -> (h: Self)
        ensures
            h.active_slot == 0,
            !h.locked,
            forall|i: int| 0 <= i < 6 ==> #[trigger] h.slots@[i].left_hand is None && h.slots@[i].right_hand is None,
    {
        Hotbar {
            slots: [
                HotbarSlot::empty(),
                HotbarSlot::empty(),
                HotbarSlot::empty(),
                HotbarSlot::empty(),
                HotbarSlot::empty(),
                HotbarSlot::empty(),
            ],
            active_slot: 0,
            locked: false,
        }
    }

    /// Select a slot; the index wraps around the six slots.
    pub fn select_slot(&mut self, slot: usize)
        ensures
            final(self).active_slot == slot % 6,
            final(self).active_slot < 6,
            final(self).slots == old(self).slots,
            final(self).locked == old(self).locked,
    {
        self.active_slot = slot % 6;
    }

    pub fn active_slot(&self) -> (s: &HotbarSlot)
        requires
            self.active_slot < 6,
        ensures
            *s == self.slots@[self.active_slot as int],
    {
        &self.slots[self.active_slot]
    }

    /// The item held in the given hand of the active slot.
    pub fn get_item_for_hand(&self, is_left: bool) -> (r: Option<&str>)
        requires
            self.active_slot < 6,
        ensures
            ({
                let slot = self.slots@[self.active_slot as int];
                let held = if is_left { slot.left_hand } else { slot.right_hand };
                match r {
                    Some(s) => held is Some && s@ == held.unwrap()@,
                    None => held is None,
                }
            }),
    {
        let slot = self.active_slot();
        let held = if is_left { &slot.left_hand } else { &slot.right_hand };
        match held {
            Some(s) => Some(s.as_str()),
            None => None,
        }
    }
}

impl Default for Hotbar {
    fn default() -> (h: Hotbar)
        ensures
            h.active_slot == 0,
            !h.locked,
            forall|i: int| 0 <= i < 6 ==> #[trigger] h.slots@[i].left_hand is None && h.slots@[i].right_hand is None,
    {
        Hotbar::new()
    }
}

impl Default for HotbarSlot {
    fn default() -> (s: HotbarSlot)
        ensures
            s.left_hand is None,
            s.right_hand is None,
    {
        HotbarSlot::empty()
    }
}

} // verus!
