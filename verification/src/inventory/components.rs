use vstd::prelude::*;

verus! {

/// A stack of items with ID and count.
#[derive(Debug, Clone)]
pub struct Stack {
    pub item_id: String,
    pub count: u16,
}

impl PartialEq for Stack {
    fn eq(&self, other: &Stack) -> (r: bool) {
        self.item_id.eq(&other.item_id) && self.count == other.count
    }
}

impl vstd::std_specs::cmp::PartialEqSpecImpl for Stack {
    open spec fn obeys_eq_spec() -> bool {
        true
    }

    open spec fn eq_spec(&self, other: &Stack) -> bool {
        self.item_id@ == other.item_id@ && self.count == other.count
    }
}

impl Default for Stack {
    /// An empty stack: no item id, no items.
    fn default() -> (s: Stack)
        ensures
            s.item_id@ == Seq::<char>::empty(),
            s.count == 0,
    {
        Stack { item_id: String::new(), count: 0 }
    }
}

/// A single slot in the inventory is a stack.
pub type InventorySlot = Stack;

/// Abstract content of one slot: the item id as characters and the count.
pub type SlotView = Option<(Seq<char>, u16)>;

pub open spec fn slot_view(s: Option<Stack>) -> SlotView {
    match s {
        Some(st) => Some((st.item_id@, st.count)),
        None => None,
    }
}

pub open spec fn bag_view(b: Seq<Option<Stack>>) -> Seq<SlotView> {
    b.map_values(|s: Option<Stack>| slot_view(s))
}

/// How many items with id `id` a slot holds.
pub open spec fn slot_count(s: SlotView, id: Seq<char>) -> nat {
    match s {
        Some((i, c)) => if i == id { c as nat } else { 0 },
        None => 0,
    }
}

/// Total number of items with id `id` in a bag.
pub open spec fn count_in(b: Seq<SlotView>, id: Seq<char>) -> nat
    decreases b.len(),
{
    if b.len() == 0 {
        0
    } else {
        slot_count(b[0], id) + count_in(b.drop_first(), id)
    }
}

/// First pass of stacking, one slot: top up an existing stack of the same item.
pub open spec fn top_up_slot(s: SlotView, id: Seq<char>, rem: nat, max: u16) -> (SlotView, nat) {
    match s {
        Some((i, c)) => if i == id && c < max {
            let add: nat = if rem < (max - c) as nat { rem } else { (max - c) as nat };
            (Some((i, (c + add) as u16)), (rem - add) as nat)
        } else {
            (s, rem)
        },
        None => (s, rem),
    }
}

/// First pass of stacking: walk the slots in order, topping up existing stacks
/// of the item until nothing remains.
pub open spec fn top_up(b: Seq<SlotView>, id: Seq<char>, rem: nat, max: u16) -> (Seq<SlotView>, nat)
    decreases b.len(),
{
    if b.len() == 0 || rem == 0 {
        (b, rem)
    } else {
        let (s0, r1) = top_up_slot(b[0], id, rem, max);
        let (rest, r2) = top_up(b.drop_first(), id, r1, max);
        (seq![s0] + rest, r2)
    }
}

/// Second pass of stacking, one slot: an empty slot receives a new stack.
pub open spec fn fill_slot(s: SlotView, id: Seq<char>, rem: nat, max: u16) -> (SlotView, nat) {
    match s {
        None => {
            let add: nat = if rem < max as nat { rem } else { max as nat };
            (Some((id, add as u16)), (rem - add) as nat)
        },
        Some(_) => (s, rem),
    }
}

/// Second pass of stacking: walk the slots in order, opening new stacks in
/// empty slots until nothing remains.
pub open spec fn fill_empty(b: Seq<SlotView>, id: Seq<char>, rem: nat, max: u16) -> (Seq<SlotView>, nat)
    decreases b.len(),
{
    if b.len() == 0 || rem == 0 {
        (b, rem)
    } else {
        let (s0, r1) = fill_slot(b[0], id, rem, max);
        let (rest, r2) = fill_empty(b.drop_first(), id, r1, max);
        (seq![s0] + rest, r2)
    }
}

/// Stacking into one bag: existing stacks first, then empty slots.
/// Gives the new bag and the count that did not fit.
pub open spec fn stack_into(b: Seq<SlotView>, id: Seq<char>, count: nat, max: u16) -> (Seq<SlotView>, nat) {
    let (b1, r1) = top_up(b, id, count, max);
    fill_empty(b1, id, r1, max)
}

/// Removal from one bag, one slot: take what is needed from a matching stack;
/// a stack that reaches zero is cleared.
pub open spec fn take_slot(s: SlotView, id: Seq<char>, rem: nat) -> (SlotView, nat) {
    match s {
        Some((i, c)) => if i == id {
            let take: nat = if rem < c as nat { rem } else { c as nat };
            let left = (c - take) as u16;
            (if left == 0 { None } else { Some((i, left)) }, (rem - take) as nat)
        } else {
            (s, rem)
        },
        None => (s, rem),
    }
}

/// Removal from one bag: walk the slots in order until nothing remains to remove.
pub open spec fn take_from(b: Seq<SlotView>, id: Seq<char>, rem: nat) -> (Seq<SlotView>, nat)
    decreases b.len(),
{
    if b.len() == 0 || rem == 0 {
        (b, rem)
    } else {
        let (s0, r1) = take_slot(b[0], id, rem);
        let (rest, r2) = take_from(b.drop_first(), id, r1);
        (seq![s0] + rest, r2)
    }
}

// ---------------------------------------------------------------------------
// Lemmas on the model
// ---------------------------------------------------------------------------

pub proof fn lemma_count_in_append(a: Seq<SlotView>, b: Seq<SlotView>, id: Seq<char>)
    ensures
        count_in(a + b, id) == count_in(a, id) + count_in(b, id),
    decreases a.len(),
{
    if a.len() == 0 {
        assert(a + b =~= b);
    } else {
        assert((a + b).drop_first() =~= a.drop_first() + b);
        lemma_count_in_append(a.drop_first(), b, id);
    }
}

pub proof fn lemma_count_in_single(s: SlotView, id: Seq<char>)
    ensures
        count_in(seq![s], id) == slot_count(s, id),
{
    assert(seq![s].drop_first() =~= Seq::<SlotView>::empty());
    assert(count_in(Seq::<SlotView>::empty(), id) == 0);
}

/// Topping up keeps the length, never gains more than was asked, and moves
/// exactly the placed amount into the count of the item; other items are untouched.
pub proof fn lemma_top_up(b: Seq<SlotView>, id: Seq<char>, rem: nat, max: u16, other: Seq<char>)
    ensures
        top_up(b, id, rem, max).0.len() == b.len(),
        top_up(b, id, rem, max).1 <= rem,
        count_in(top_up(b, id, rem, max).0, id) + top_up(b, id, rem, max).1 == count_in(b, id) + rem,
        other != id ==> count_in(top_up(b, id, rem, max).0, other) == count_in(b, other),
        max > 0 && top_up(b, id, rem, max).1 == rem ==> top_up(b, id, rem, max).0 == b,
    decreases b.len(),
{
    if b.len() == 0 || rem == 0 {
    } else {
        let (s0, r1) = top_up_slot(b[0], id, rem, max);
        lemma_top_up(b.drop_first(), id, r1, max, other);
        let (rest, r2) = top_up(b.drop_first(), id, r1, max);
        assert((seq![s0] + rest).drop_first() =~= rest);
        if r2 == rem && max > 0 {
            assert(r1 == rem);
            assert(s0 == b[0]);
            assert(seq![s0] + rest =~= b);
        }
    }
}

pub proof fn lemma_fill_empty(b: Seq<SlotView>, id: Seq<char>, rem: nat, max: u16, other: Seq<char>)
    ensures
        fill_empty(b, id, rem, max).0.len() == b.len(),
        fill_empty(b, id, rem, max).1 <= rem,
        count_in(fill_empty(b, id, rem, max).0, id) + fill_empty(b, id, rem, max).1 == count_in(b, id) + rem,
        other != id ==> count_in(fill_empty(b, id, rem, max).0, other) == count_in(b, other),
        max > 0 && fill_empty(b, id, rem, max).1 == rem ==> fill_empty(b, id, rem, max).0 == b,
    decreases b.len(),
{
    if b.len() == 0 || rem == 0 {
    } else {
        let (s0, r1) = fill_slot(b[0], id, rem, max);
        lemma_fill_empty(b.drop_first(), id, r1, max, other);
        let (rest, r2) = fill_empty(b.drop_first(), id, r1, max);
        assert((seq![s0] + rest).drop_first() =~= rest);
        if r2 == rem && max > 0 {
            assert(r1 == rem);
            assert(s0 == b[0]);
            assert(seq![s0] + rest =~= b);
        }
    }
}

/// Stacking into a bag conserves items: what was placed plus what is returned
/// equals what was offered, and no other item's count changes.
pub proof fn lemma_stack_into(b: Seq<SlotView>, id: Seq<char>, count: nat, max: u16, other: Seq<char>)
    ensures
        stack_into(b, id, count, max).0.len() == b.len(),
        stack_into(b, id, count, max).1 <= count,
        count_in(stack_into(b, id, count, max).0, id) + stack_into(b, id, count, max).1
            == count_in(b, id) + count,
        other != id ==> count_in(stack_into(b, id, count, max).0, other) == count_in(b, other),
        max > 0 && stack_into(b, id, count, max).1 == count ==> stack_into(b, id, count, max).0 == b,
        count == 0 ==> stack_into(b, id, count, max) == (b, 0nat),
{
    let (b1, r1) = top_up(b, id, count, max);
    lemma_top_up(b, id, count, max, other);
    lemma_fill_empty(b1, id, r1, max, other);
}

/// Removing from a bag takes exactly the requested amount when the bag holds
/// enough, otherwise everything of that item; other items are untouched.
pub proof fn lemma_take_from(b: Seq<SlotView>, id: Seq<char>, rem: nat, other: Seq<char>)
    ensures
        take_from(b, id, rem).0.len() == b.len(),
        take_from(b, id, rem).1 == if rem <= count_in(b, id) { 0 } else { rem - count_in(b, id) },
        count_in(take_from(b, id, rem).0, id) == if rem <= count_in(b, id) {
            count_in(b, id) - rem
        } else {
            0
        },
        other != id ==> count_in(take_from(b, id, rem).0, other) == count_in(b, other),
        rem == 0 ==> take_from(b, id, rem) == (b, rem),
    decreases b.len(),
{
    if b.len() == 0 || rem == 0 {
    } else {
        let (s0, r1) = take_slot(b[0], id, rem);
        lemma_take_from(b.drop_first(), id, r1, other);
        let (rest, r2) = take_from(b.drop_first(), id, r1);
        assert((seq![s0] + rest).drop_first() =~= rest);
    }
}

/// A bag has no room left for item `id`: no slot is empty and every stack of
/// the item is at the stack limit.
pub open spec fn bag_full(b: Seq<SlotView>, id: Seq<char>, max: u16) -> bool {
    forall|i: int| 0 <= i < b.len() ==> {
        &&& #[trigger] b[i] is Some
        &&& b[i].unwrap().0 == id ==> b[i].unwrap().1 >= max
    }
}

proof fn lemma_top_up_full(b: Seq<SlotView>, id: Seq<char>, rem: nat, max: u16)
    ensures
        top_up(b, id, rem, max).1 > 0 ==> forall|i: int| 0 <= i < b.len() ==> {
            let s = #[trigger] top_up(b, id, rem, max).0[i];
            &&& (s is None <==> b[i] is None)
            &&& (s is Some && s.unwrap().0 == id ==> s.unwrap().1 >= max)
        },
    decreases b.len(),
{
    if b.len() == 0 || rem == 0 {
    } else {
        let (s0, r1) = top_up_slot(b[0], id, rem, max);
        lemma_top_up_full(b.drop_first(), id, r1, max);
        lemma_top_up(b.drop_first(), id, r1, max, id);
        let (rest, r2) = top_up(b.drop_first(), id, r1, max);
        if r2 > 0 {
            assert forall|i: int| 0 <= i < b.len() implies {
                let s = #[trigger] top_up(b, id, rem, max).0[i];
                &&& (s is None <==> b[i] is None)
                &&& (s is Some && s.unwrap().0 == id ==> s.unwrap().1 >= max)
            } by {
                if i > 0 {
                    assert(top_up(b, id, rem, max).0[i] == rest[i - 1]);
                    assert(b[i] == b.drop_first()[i - 1]);
                } else {
                    assert(top_up(b, id, rem, max).0[0] == s0);
                }
            }
        }
    }
}

proof fn lemma_fill_empty_full(b: Seq<SlotView>, id: Seq<char>, rem: nat, max: u16)
    ensures
        fill_empty(b, id, rem, max).1 > 0 ==> forall|i: int| 0 <= i < b.len() ==> {
            let s = #[trigger] fill_empty(b, id, rem, max).0[i];
            &&& s is Some
            &&& b[i] is Some ==> s == b[i]
            &&& b[i] is None ==> s == Some((id, max))
        },
    decreases b.len(),
{
    if b.len() == 0 || rem == 0 {
    } else {
        let (s0, r1) = fill_slot(b[0], id, rem, max);
        lemma_fill_empty_full(b.drop_first(), id, r1, max);
        lemma_fill_empty(b.drop_first(), id, r1, max, id);
        let (rest, r2) = fill_empty(b.drop_first(), id, r1, max);
        if r2 > 0 {
            assert forall|i: int| 0 <= i < b.len() implies {
                let s = #[trigger] fill_empty(b, id, rem, max).0[i];
                &&& s is Some
                &&& b[i] is Some ==> s == b[i]
                &&& b[i] is None ==> s == Some((id, max))
            } by {
                if i > 0 {
                    assert(fill_empty(b, id, rem, max).0[i] == rest[i - 1]);
                    assert(b[i] == b.drop_first()[i - 1]);
                }
            }
        }
    }
}

/// When stacking leaves a remainder, the bag has no room left for the item.
pub proof fn lemma_stack_into_full(b: Seq<SlotView>, id: Seq<char>, count: nat, max: u16)
    ensures
        stack_into(b, id, count, max).1 > 0 ==> bag_full(stack_into(b, id, count, max).0, id, max),
{
    let (b1, r1) = top_up(b, id, count, max);
    lemma_top_up(b, id, count, max, id);
    lemma_top_up_full(b, id, count, max);
    lemma_fill_empty_full(b1, id, r1, max);
    lemma_fill_empty(b1, id, r1, max, id);
    let (b2, r2) = fill_empty(b1, id, r1, max);
    if r2 > 0 {
        assert forall|i: int| 0 <= i < b2.len() implies {
            &&& #[trigger] b2[i] is Some
            &&& b2[i].unwrap().0 == id ==> b2[i].unwrap().1 >= max
        } by {
            assert(b2[i] == fill_empty(b1, id, r1, max).0[i]);
            assert(b1[i] == top_up(b, id, count, max).0[i]);
        }
    }
}

proof fn lemma_bag_view_update(b: Seq<Option<Stack>>, i: int, v: Option<Stack>)
    requires
        0 <= i < b.len(),
    ensures
        bag_view(b.update(i, v)) == bag_view(b).update(i, slot_view(v)),
{
    assert(bag_view(b.update(i, v)) =~= bag_view(b).update(i, slot_view(v)));
}

/// Splitting a bag at `i`: processing the suffix from `i` equals processing
/// slot `i` and then the suffix from `i + 1`.
proof fn lemma_suffix_step(b: Seq<SlotView>, i: int)
    requires
        0 <= i < b.len(),
    ensures
        b.subrange(i, b.len() as int).drop_first() == b.subrange(i + 1, b.len() as int),
        b.subrange(i, b.len() as int)[0] == b[i],
        b.subrange(i, b.len() as int).len() > 0,
{
    assert(b.subrange(i, b.len() as int).drop_first() =~= b.subrange(i + 1, b.len() as int));
}

// ---------------------------------------------------------------------------
// Bags and the inventory
// ---------------------------------------------------------------------------

/// Which bag an item should be routed to.
#[derive(Clone, Copy, Debug, PartialEq, Eq, Structural)]
pub enum BagTarget {
    /// Blocks and materials go to the material bag.
    Material,
    /// Everything else goes to the main bag.
    Main,
}

/// Adding to the inventory on the model: stack into the target bag, then
/// overflow into the other bag. Gives the new main bag, the new material bag
/// and the count that did not fit.
pub open spec fn add_views(
    main: Seq<SlotView>,
    material: Seq<SlotView>,
    id: Seq<char>,
    count: nat,
    max: u16,
    target: BagTarget,
) -> (Seq<SlotView>, Seq<SlotView>, nat) {
    match target {
        BagTarget::Material => {
            let (t1, r1) = stack_into(material, id, count, max);
            if r1 > 0 {
                let (m2, r2) = stack_into(main, id, r1, max);
                (m2, t1, r2)
            } else {
                (main, t1, r1)
            }
        },
        BagTarget::Main => {
            let (m1, r1) = stack_into(main, id, count, max);
            if r1 > 0 {
                let (t2, r2) = stack_into(material, id, r1, max);
                (m1, t2, r2)
            } else {
                (m1, material, r1)
            }
        },
    }
}

/// Removing from the inventory on the model: the main bag first, then the
/// material bag. Gives the new main bag and the new material bag.
pub open spec fn take_views(main: Seq<SlotView>, material: Seq<SlotView>, id: Seq<char>, count: nat) -> (Seq<SlotView>, Seq<SlotView>) {
    let (m1, r1) = take_from(main, id, count);
    (m1, take_from(material, id, r1).0)
}

/// Player inventory.
#[derive(Debug)]
pub struct Inventory {
    pub main_bag: Vec<Option<InventorySlot>>,
    pub material_bag: Vec<Option<InventorySlot>>,
    pub max_slots_base: usize,
    pub max_slots_bonus: usize,
}

fn empty_bag(n: usize) -> (b: Vec<Option<InventorySlot>>)
    ensures
        b@.len() == n,
        forall|i: int| 0 <= i < n ==> #[trigger] b@[i] is None,
{
    let mut b: Vec<Option<InventorySlot>> = Vec::new();
    let mut k: usize = 0;
    while k < n
        invariant
            k <= n,
            b@.len() == k,
            forall|i: int| 0 <= i < k ==> #[trigger] b@[i] is None,
        decreases n - k,
    {
        b.push(None);
        k = k + 1;
    }
    b
}

/// Compare a stored item id with the requested one.
fn same_id(a: &String, b: &String) -> (r: bool)
    ensures
        r == (a@ == b@),
{
    a.eq(b)
}

impl Inventory {
    pub open spec fn main_view(&self) -> Seq<SlotView> {
        bag_view(self.main_bag@)
    }

    pub open spec fn material_view(&self) -> Seq<SlotView> {
        bag_view(self.material_bag@)
    }

    /// Total number of items with id `id` across both bags.
    pub open spec fn item_count(&self, id: Seq<char>) -> nat {
        count_in(self.main_view(), id) + count_in(self.material_view(), id)
    }

    pub fn new() -> (inv: Self)
        ensures
            inv.main_bag@.len() == 40,
            inv.material_bag@.len() == 40,
            forall|i: int| 0 <= i < 40 ==> #[trigger] inv.main_bag@[i] is None,
            forall|i: int| 0 <= i < 40 ==> #[trigger] inv.material_bag@[i] is None,
            inv.max_slots_base == 40,
            inv.max_slots_bonus == 0,
    {
        Inventory {
            main_bag: empty_bag(40),
            material_bag: empty_bag(40),
            max_slots_base: 40,
            max_slots_bonus: 0,
        }
    }

    pub fn total_slots(&self) -> (n: usize)
        requires
            self.max_slots_base + self.max_slots_bonus <= usize::MAX,
        ensures
            n == self.max_slots_base + self.max_slots_bonus,
    {
        self.max_slots_base + self.max_slots_bonus
    }

    /// Try to add an item to the specified bag, overflowing into the other bag
    /// when the first one is full. Returns the count that couldn't fit.
    pub fn try_add_item(&mut self, item_id: &str, count: u16, max_stack: u16, target: BagTarget) -> (remaining: u16)
        ensures
            ({
                let (m, t, r) = add_views(old(self).main_view(), old(self).material_view(), item_id@, count as nat, max_stack, target);
                &&& final(self).main_view() == m
                &&& final(self).material_view() == t
                &&& remaining == r
            }),
            remaining <= count,
            final(self).item_count(item_id@) == old(self).item_count(item_id@) + count - remaining,
            forall|other: Seq<char>|
                other != item_id@ ==> #[trigger] final(self).item_count(other) == old(self).item_count(other),
            remaining > 0 ==> bag_full(final(self).main_view(), item_id@, max_stack)
                && bag_full(final(self).material_view(), item_id@, max_stack),
            max_stack > 0 && remaining == count ==> {
                &&& final(self).main_view() == old(self).main_view()
                &&& final(self).material_view() == old(self).material_view()
            },
            final(self).main_bag@.len() == old(self).main_bag@.len(),
            final(self).material_bag@.len() == old(self).material_bag@.len(),
            final(self).max_slots_base == old(self).max_slots_base,
            final(self).max_slots_bonus == old(self).max_slots_bonus,
    {
        let id: String = item_id.to_owned();
        let ghost main0 = self.main_view();
        let ghost mat0 = self.material_view();
        let mut remaining: u16;
        match target {
            BagTarget::Material => {
                remaining = Self::try_stack_into(&mut self.material_bag, &id, count, max_stack);
                if remaining > 0 {
                    remaining = Self::try_stack_into(&mut self.main_bag, &id, remaining, max_stack);
                }
            },
            BagTarget::Main => {
                remaining = Self::try_stack_into(&mut self.main_bag, &id, count, max_stack);
                if remaining > 0 {
                    remaining = Self::try_stack_into(&mut self.material_bag, &id, remaining, max_stack);
                }
            },
        }
        proof {
            let idv = item_id@;
            let (m1, r1) = match target {
                BagTarget::Material => stack_into(mat0, idv, count as nat, max_stack),
                BagTarget::Main => stack_into(main0, idv, count as nat, max_stack),
            };
            assert forall|other: Seq<char>| other != idv implies
                #[trigger] self.item_count(other) == old(self).item_count(other) by {
                lemma_stack_into(mat0, idv, count as nat, max_stack, other);
                lemma_stack_into(main0, idv, count as nat, max_stack, other);
                lemma_stack_into(mat0, idv, r1, max_stack, other);
                lemma_stack_into(main0, idv, r1, max_stack, other);
            }
            lemma_stack_into(mat0, idv, count as nat, max_stack, idv);
            lemma_stack_into(main0, idv, count as nat, max_stack, idv);
            lemma_stack_into_full(mat0, idv, count as nat, max_stack);
            lemma_stack_into_full(main0, idv, count as nat, max_stack);
            lemma_stack_into_full(mat0, idv, r1, max_stack);
            lemma_stack_into_full(main0, idv, r1, max_stack);
            lemma_stack_into(mat0, idv, r1, max_stack, idv);
            lemma_stack_into(main0, idv, r1, max_stack, idv);
        }
        remaining
    }

    /// Stack items into a specific bag: first top up existing stacks of the
    /// item, then open new stacks in empty slots. Returns the remainder.
    fn try_stack_into(bag: &mut Vec<Option<InventorySlot>>, item_id: &String, count: u16, max_stack: u16) -> (remaining: u16)
        ensures
            bag_view(final(bag)@) == stack_into(bag_view(old(bag)@), item_id@, count as nat, max_stack).0,
            remaining == stack_into(bag_view(old(bag)@), item_id@, count as nat, max_stack).1,
            final(bag)@.len() == old(bag)@.len(),
    {
        let ghost b0 = bag_view(bag@);
        let ghost id = item_id@;
        let n = bag.len();
        let mut remaining = count;

        // First, stack into existing slots.
        let mut i: usize = 0;
        proof {
            assert(b0.subrange(0, n as int) =~= b0);
            assert(bag_view(bag@).subrange(0, 0) + top_up(b0, id, count as nat, max_stack).0 =~= top_up(b0, id, count as nat, max_stack).0);
        }
        while i < n && remaining > 0
            invariant
                id == item_id@,
                n == bag@.len(),
                n == b0.len(),
                0 <= i <= n,
                bag_view(bag@).subrange(i as int, n as int) == b0.subrange(i as int, n as int),
                bag_view(bag@).subrange(0, i as int) + top_up(b0.subrange(i as int, n as int), id, remaining as nat, max_stack).0
                    == top_up(b0, id, count as nat, max_stack).0,
                top_up(b0.subrange(i as int, n as int), id, remaining as nat, max_stack).1
                    == top_up(b0, id, count as nat, max_stack).1,
            decreases n - i,
        {
            proof {
                lemma_suffix_step(b0, i as int);
            }
            let ghost before = bag_view(bag@);
            let ghost rem_before = remaining as nat;
            proof {
                assert(bag_view(bag@).subrange(i as int, n as int)[0] == b0.subrange(i as int, n as int)[0]);
                assert(bag_view(bag@)[i as int] == b0[i as int]);
            }
            let mut updated: Option<InventorySlot> = None;
            let mut changed = false;
            proof {
                assert(b0[i as int] == slot_view(bag@[i as int]));
            }
            match &bag[i] {
                Some(s) => {
                    if same_id(&s.item_id, item_id) && s.count < max_stack {
                        let can_add = max_stack - s.count;
                        let to_add = if remaining < can_add { remaining } else { can_add };
                        updated = Some(Stack { item_id: s.item_id.clone(), count: s.count + to_add });
                        proof {
                            assert(slot_view(updated) == Some((id, (s.count + to_add) as u16)));
                            assert(top_up_slot(b0[i as int], id, rem_before, max_stack)
                                == (slot_view(updated), (rem_before - to_add) as nat));
                        }
                        remaining = remaining - to_add;
                        changed = true;
                    }
                },
                None => {},
            }
            if changed {
                proof {
                    lemma_bag_view_update(bag@, i as int, updated);
                }
                bag.set(i, updated);
            }
            proof {
                assert(top_up_slot(b0[i as int], id, rem_before, max_stack) == (bag_view(bag@)[i as int], remaining as nat));
                assert(bag_view(bag@).subrange(0, i as int + 1) =~= bag_view(bag@).subrange(0, i as int) + seq![bag_view(bag@)[i as int]]);
                assert(bag_view(bag@).subrange(0, i as int) =~= before.subrange(0, i as int));
                assert(bag_view(bag@).subrange(i as int + 1, n as int) =~= b0.subrange(i as int + 1, n as int));
                let tail = top_up(b0.subrange(i as int + 1, n as int), id, remaining as nat, max_stack).0;
                assert(bag_view(bag@).subrange(0, i as int + 1) + tail
                    =~= bag_view(bag@).subrange(0, i as int) + (seq![bag_view(bag@)[i as int]] + tail));
            }
            i = i + 1;
        }
        proof {
            assert(bag_view(bag@) =~= bag_view(bag@).subrange(0, i as int) + b0.subrange(i as int, n as int));
        }

        // Then, create new slots.
        let ghost b1 = bag_view(bag@);
        let ghost r1 = remaining as nat;
        let mut j: usize = 0;
        proof {
            assert(b1.subrange(0, n as int) =~= b1);
            assert(bag_view(bag@).subrange(0, 0) + fill_empty(b1, id, r1, max_stack).0 =~= fill_empty(b1, id, r1, max_stack).0);
        }
        while j < n && remaining > 0
            invariant
                id == item_id@,
                n == bag@.len(),
                n == b1.len(),
                0 <= j <= n,
                bag_view(bag@).subrange(j as int, n as int) == b1.subrange(j as int, n as int),
                bag_view(bag@).subrange(0, j as int) + fill_empty(b1.subrange(j as int, n as int), id, remaining as nat, max_stack).0
                    == fill_empty(b1, id, r1, max_stack).0,
                fill_empty(b1.subrange(j as int, n as int), id, remaining as nat, max_stack).1
                    == fill_empty(b1, id, r1, max_stack).1,
            decreases n - j,
        {
            proof {
                lemma_suffix_step(b1, j as int);
            }
            let ghost before = bag_view(bag@);
            let ghost rem_before = remaining as nat;
            proof {
                assert(bag_view(bag@).subrange(j as int, n as int)[0] == b1.subrange(j as int, n as int)[0]);
                assert(bag_view(bag@)[j as int] == b1[j as int]);
            }
            proof {
                assert(b1[j as int] == slot_view(bag@[j as int]));
            }
            if bag[j].is_none() {
                let to_add = if remaining < max_stack { remaining } else { max_stack };
                let fresh = Some(Stack { item_id: item_id.clone(), count: to_add });
                proof {
                    lemma_bag_view_update(bag@, j as int, fresh);
                    assert(slot_view(fresh) == Some((id, to_add)));
                }
                bag.set(j, fresh);
                remaining = remaining - to_add;
            }
            proof {
                assert(fill_slot(b1[j as int], id, rem_before, max_stack) == (bag_view(bag@)[j as int], remaining as nat));
                assert(bag_view(bag@).subrange(0, j as int + 1) =~= bag_view(bag@).subrange(0, j as int) + seq![bag_view(bag@)[j as int]]);
                assert(bag_view(bag@).subrange(0, j as int) =~= before.subrange(0, j as int));
                assert(bag_view(bag@).subrange(j as int + 1, n as int) =~= b1.subrange(j as int + 1, n as int));
                let tail = fill_empty(b1.subrange(j as int + 1, n as int), id, remaining as nat, max_stack).0;
                assert(bag_view(bag@).subrange(0, j as int + 1) + tail
                    =~= bag_view(bag@).subrange(0, j as int) + (seq![bag_view(bag@)[j as int]] + tail));
            }
            j = j + 1;
        }
        proof {
            assert(bag_view(bag@) =~= bag_view(bag@).subrange(0, j as int) + b1.subrange(j as int, n as int));
        }
        remaining
    }

    /// Count total items of a specific type across all bags.
    pub fn count_item(&self, item_id: &str) -> (total: u32)
        requires
            self.item_count(item_id@) <= u32::MAX,
        ensures
            total == self.item_count(item_id@),
    {
        let id: String = item_id.to_owned();
        let a = count_bag(&self.main_bag, &id, 0);
        count_bag(&self.material_bag, &id, a)
    }

    /// Remove items from inventory (main bag first, then material bag).
    /// Returns true if the inventory held enough; otherwise nothing changes.
    pub fn remove_item(&mut self, item_id: &str, count: u16) -> (ok: bool)
        requires
            old(self).item_count(item_id@) <= u32::MAX,
        ensures
            ok == (old(self).item_count(item_id@) >= count),
            !ok ==> {
                &&& final(self).main_view() == old(self).main_view()
                &&& final(self).material_view() == old(self).material_view()
            },
            ok ==> {
                let (m, t) = take_views(old(self).main_view(), old(self).material_view(), item_id@, count as nat);
                &&& final(self).main_view() == m
                &&& final(self).material_view() == t
            },
            ok ==> final(self).item_count(item_id@) == old(self).item_count(item_id@) - count,
            forall|other: Seq<char>|
                other != item_id@ ==> #[trigger] final(self).item_count(other) == old(self).item_count(other),
            final(self).main_bag@.len() == old(self).main_bag@.len(),
            final(self).material_bag@.len() == old(self).material_bag@.len(),
            final(self).max_slots_base == old(self).max_slots_base,
            final(self).max_slots_bonus == old(self).max_slots_bonus,
    {
        let total = self.count_item(item_id);
        if total < count as u32 {
            return false;
        }
        let id: String = item_id.to_owned();
        let ghost main0 = self.main_view();
        let ghost mat0 = self.material_view();
        let remaining = take_from_bag(&mut self.main_bag, &id, count);
        let _ = take_from_bag(&mut self.material_bag, &id, remaining);
        proof {
            let idv = item_id@;
            let r1 = take_from(main0, idv, count as nat).1;
            lemma_take_from(main0, idv, count as nat, idv);
            lemma_take_from(mat0, idv, r1, idv);
            assert forall|other: Seq<char>| other != idv implies
                #[trigger] self.item_count(other) == old(self).item_count(other) by {
                lemma_take_from(main0, idv, count as nat, other);
                lemma_take_from(mat0, idv, r1, other);
            }
        }
        true
    }
}

impl Default for Inventory {
    fn default() -> (inv: Inventory)
        ensures
            inv.main_bag@.len() == 40,
            inv.material_bag@.len() == 40,
            forall|i: int| 0 <= i < 40 ==> #[trigger] inv.main_bag@[i] is None,
            forall|i: int| 0 <= i < 40 ==> #[trigger] inv.material_bag@[i] is None,
            inv.max_slots_base == 40,
            inv.max_slots_bonus == 0,
    {
        Inventory::new()
    }
}

/// Sum the counts of the matching stacks of a bag onto `acc`.
fn count_bag(bag: &Vec<Option<InventorySlot>>, id: &String, acc: u32) -> (total: u32)
    requires
        acc + count_in(bag_view(bag@), id@) <= u32::MAX,
    ensures
        total == acc + count_in(bag_view(bag@), id@),
{
    let ghost b = bag_view(bag@);
    let n = bag.len();
    let mut total = acc;
    let mut i: usize = 0;
    proof {
        assert(b.subrange(0, 0) =~= Seq::<SlotView>::empty());
    }
    while i < n
        invariant
            n == bag@.len(),
            b == bag_view(bag@),
            0 <= i <= n,
            acc + count_in(b, id@) <= u32::MAX,
            total == acc + count_in(b.subrange(0, i as int), id@),
        decreases n - i,
    {
        proof {
            assert(b.subrange(0, i as int + 1) =~= b.subrange(0, i as int) + seq![b[i as int]]);
            lemma_count_in_append(b.subrange(0, i as int), seq![b[i as int]], id@);
            lemma_count_in_single(b[i as int], id@);
            assert(b =~= b.subrange(0, i as int + 1) + b.subrange(i as int + 1, n as int));
            lemma_count_in_append(b.subrange(0, i as int + 1), b.subrange(i as int + 1, n as int), id@);
            assert(b[i as int] == slot_view(bag@[i as int]));
        }
        match &bag[i] {
            Some(s) => {
                if same_id(&s.item_id, id) {
                    total = total + s.count as u32;
                }
            },
            None => {},
        }
        i = i + 1;
    }
    proof {
        assert(b.subrange(0, n as int) =~= b);
    }
    total
}

/// Remove up to `count` items with the given id from a bag, in slot order.
/// Returns what could not be removed.
fn take_from_bag(bag: &mut Vec<Option<InventorySlot>>, id: &String, count: u16) -> (remaining: u16)
    ensures
        bag_view(final(bag)@) == take_from(bag_view(old(bag)@), id@, count as nat).0,
        remaining == take_from(bag_view(old(bag)@), id@, count as nat).1,
        final(bag)@.len() == old(bag)@.len(),
{
    let ghost b0 = bag_view(bag@);
    let ghost idv = id@;
    let n = bag.len();
    let mut remaining = count;
    let mut i: usize = 0;
    proof {
        assert(b0.subrange(0, n as int) =~= b0);
        assert(bag_view(bag@).subrange(0, 0) + take_from(b0, idv, count as nat).0 =~= take_from(b0, idv, count as nat).0);
    }
    while i < n && remaining > 0
        invariant
            idv == id@,
            n == bag@.len(),
            n == b0.len(),
            0 <= i <= n,
            bag_view(bag@).subrange(i as int, n as int) == b0.subrange(i as int, n as int),
            bag_view(bag@).subrange(0, i as int) + take_from(b0.subrange(i as int, n as int), idv, remaining as nat).0
                == take_from(b0, idv, count as nat).0,
            take_from(b0.subrange(i as int, n as int), idv, remaining as nat).1
                == take_from(b0, idv, count as nat).1,
        decreases n - i,
    {
        proof {
            lemma_suffix_step(b0, i as int);
        }
        let ghost before = bag_view(bag@);
        let ghost rem_before = remaining as nat;
        proof {
            assert(bag_view(bag@).subrange(i as int, n as int)[0] == b0.subrange(i as int, n as int)[0]);
            assert(bag_view(bag@)[i as int] == b0[i as int]);
            assert(b0[i as int] == slot_view(bag@[i as int]));
        }
        let mut updated: Option<InventorySlot> = None;
        let mut changed = false;
        match &bag[i] {
            Some(s) => {
                if same_id(&s.item_id, id) {
                    let to_remove = if remaining < s.count { remaining } else { s.count };
                    let left = s.count - to_remove;
                    if left == 0 {
                        updated = None;
                    } else {
                        updated = Some(Stack { item_id: s.item_id.clone(), count: left });
                    }
                    proof {
                        assert(take_slot(b0[i as int], idv, rem_before)
                            == (slot_view(updated), (rem_before - to_remove) as nat));
                    }
                    remaining = remaining - to_remove;
                    changed = true;
                }
            },
            None => {},
        }
        if changed {
            proof {
                lemma_bag_view_update(bag@, i as int, updated);
            }
            bag.set(i, updated);
        }
        proof {
            assert(take_slot(b0[i as int], idv, rem_before) == (bag_view(bag@)[i as int], remaining as nat));
            assert(bag_view(bag@).subrange(0, i as int + 1) =~= bag_view(bag@).subrange(0, i as int) + seq![bag_view(bag@)[i as int]]);
            assert(bag_view(bag@).subrange(0, i as int) =~= before.subrange(0, i as int));
            assert(bag_view(bag@).subrange(i as int + 1, n as int) =~= b0.subrange(i as int + 1, n as int));
            let tail = take_from(b0.subrange(i as int + 1, n as int), idv, remaining as nat).0;
            assert(bag_view(bag@).subrange(0, i as int + 1) + tail
                =~= bag_view(bag@).subrange(0, i as int) + (seq![bag_view(bag@)[i as int]] + tail));
        }
        i = i + 1;
    }
    proof {
        assert(bag_view(bag@) =~= bag_view(bag@).subrange(0, i as int) + b0.subrange(i as int, n as int));
    }
    remaining
}

} // verus!
