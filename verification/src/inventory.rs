//! Inventory slots: stacking, moving stacks with the cursor, and restoring
//! saved slots. The hotbar has 9 slots, the inventory 27, and a stack holds
//! at most 64 items of one of the 9 palette item types.

use vstd::prelude::*;

verus! {

pub const HOTBAR_SIZE: usize = 9;
pub const INVENTORY_SIZE: usize = 27;
pub const ITEM_TYPE_COUNT: usize = 9;
pub const MAX_STACK_SIZE: u32 = 64;

/// One inventory slot: an item type and how many of it the slot holds.
#[derive(Clone, Copy, Debug, PartialEq, Eq, Structural)]
pub struct InventorySlot {
    pub item: Option<usize>,
    pub count: u32,
}

impl Default for InventorySlot {
    fn default() -> (r: InventorySlot)
        ensures
            r.item is None,
            r.count == 0,
    {
        InventorySlot { item: None, count: 0 }
    }
}

pub open spec fn spec_empty_slot() -> InventorySlot {
    InventorySlot { item: None, count: 0 }
}

pub open spec fn slot_is_empty(s: InventorySlot) -> bool {
    s.item is None || s.count == 0
}

impl InventorySlot {
    /// An empty slot.
    pub fn empty() -> (r: InventorySlot)
        ensures
            r == spec_empty_slot(),
    {
        InventorySlot { item: None, count: 0 }
    }

    /// Whether the slot holds nothing (no item type, or a count of zero).
    pub fn is_empty(&self) -> (r: bool)
        ensures
            r == slot_is_empty(*self),
    {
        self.item.is_none() || self.count == 0
    }
}

pub open spec fn spec_sanitize(slot: InventorySlot) -> InventorySlot {
    match slot.item {
        Some(item) => if item < ITEM_TYPE_COUNT && slot.count > 0 {
            InventorySlot { item: Some(item), count: if slot.count < MAX_STACK_SIZE { slot.count } else { MAX_STACK_SIZE } }
        } else {
            spec_empty_slot()
        },
        None => spec_empty_slot(),
    }
}

/// A saved slot as the game accepts it: a known item type with a positive
/// count capped at a full stack, or an empty slot.
pub fn sanitize_inventory_slot(slot: InventorySlot) -> (r: InventorySlot)
    ensures
        r == spec_sanitize(slot),
{
    match slot.item {
        Some(item) => {
            if item < ITEM_TYPE_COUNT && slot.count > 0 {
                InventorySlot {
                    item: Some(item),
                    count: if slot.count < MAX_STACK_SIZE { slot.count } else { MAX_STACK_SIZE },
                }
            } else {
                InventorySlot::empty()
            }
        },
        None => InventorySlot::empty(),
    }
}

/// Takes one item out of a slot; a slot that reaches zero loses its item type.
pub fn remove_one_from_slot(slot: &mut InventorySlot)
    ensures
        final(slot).count == if old(slot).count > 0 { old(slot).count - 1 } else { 0 },
        final(slot).item == if final(slot).count == 0 { None } else { old(slot).item },
{
    slot.count = if slot.count > 0 { slot.count - 1 } else { 0 };
    if slot.count == 0 {
        slot.item = None;
    }
}

/// What clicking `slot` while carrying `carried` leaves in the slot and in
/// the hand: an empty hand or an empty slot swaps; the same item type tops
/// the slot up to a full stack; otherwise the two swap.
pub open spec fn spec_click(slot: InventorySlot, carried: InventorySlot) -> (InventorySlot, InventorySlot) {
    if slot_is_empty(carried) || slot_is_empty(slot) || !(slot.item == carried.item && slot.count < MAX_STACK_SIZE) {
        (carried, slot)
    } else {
        let room = MAX_STACK_SIZE - slot.count;
        let moved = if room < carried.count { room } else { carried.count as int };
        let left = (carried.count - moved) as u32;
        (
            InventorySlot { item: slot.item, count: (slot.count + moved) as u32 },
            InventorySlot { item: if left == 0 { None } else { carried.item }, count: left },
        )
    }
}

/// Clicks a slot while carrying `carried`: an empty hand or an empty slot
/// swaps; the same item type tops the slot up to a full stack; otherwise swaps.
pub fn click_inventory_slot(slot: &mut InventorySlot, carried: &mut InventorySlot)
    ensures
        (*final(slot), *final(carried)) == spec_click(*old(slot), *old(carried)),
{
    if carried.is_empty() || slot.is_empty() {
        std::mem::swap(slot, carried);
    } else if slot.item == carried.item && slot.count < MAX_STACK_SIZE {
        let room = MAX_STACK_SIZE - slot.count;
        let moved = if room < carried.count { room } else { carried.count };
        slot.count = slot.count + moved;
        carried.count = carried.count - moved;
        if carried.count == 0 {
            carried.item = None;
        }
    } else {
        std::mem::swap(slot, carried);
    }
}

/// Clicking a slot moves items between the slot and the hand without making
/// or losing any: of every item type, the two hold as many after as before.
pub proof fn law_click_conserves_items(slot: InventorySlot, carried: InventorySlot, item: Option<usize>)
    ensures
        contribution(spec_click(slot, carried).0, item) + contribution(spec_click(slot, carried).1, item)
            == contribution(slot, item) + contribution(carried, item),
{
}

/// First pass of adding a stack: top up slots of the same item type, in order,
/// from index `i`; yields the slots and what is left of the stack.
pub open spec fn fill_matching(s: Seq<InventorySlot>, item: Option<usize>, count: int, i: int) -> (Seq<InventorySlot>, int)
    decreases s.len() - i,
{
    if i < 0 || i >= s.len() || count <= 0 {
        (s, count)
    } else if s[i].item == item && s[i].count < MAX_STACK_SIZE {
        let room = MAX_STACK_SIZE - s[i].count;
        let moved = if room < count { room } else { count };
        fill_matching(s.update(i, InventorySlot { item: s[i].item, count: (s[i].count + moved) as u32 }), item, count - moved, i + 1)
    } else {
        fill_matching(s, item, count, i + 1)
    }
}

/// Second pass: put up to a full stack into each empty slot, in order, from index `i`.
pub open spec fn fill_empty(s: Seq<InventorySlot>, item: Option<usize>, count: int, i: int) -> (Seq<InventorySlot>, int)
    decreases s.len() - i,
{
    if i < 0 || i >= s.len() || count <= 0 {
        (s, count)
    } else if slot_is_empty(s[i]) {
        let moved = if MAX_STACK_SIZE < count { MAX_STACK_SIZE as int } else { count };
        fill_empty(s.update(i, InventorySlot { item, count: moved as u32 }), item, count - moved, i + 1)
    } else {
        fill_empty(s, item, count, i + 1)
    }
}

/// Hotbar and inventory slots (hotbar first) after adding `stack`, and the
/// part of the stack that did not fit.
pub open spec fn spec_add_stack(s: Seq<InventorySlot>, stack: InventorySlot) -> (Seq<InventorySlot>, int) {
    if slot_is_empty(stack) {
        (s, 0)
    } else {
        let first = fill_matching(s, stack.item, stack.count as int, 0);
        fill_empty(first.0, stack.item, first.1, 0)
    }
}

/// The number of items of type `item` held by the slots of `s`.
pub open spec fn total_of(s: Seq<InventorySlot>, item: Option<usize>) -> int
    decreases s.len(),
{
    if s.len() == 0 {
        0
    } else {
        total_of(s.drop_last(), item) + if s.last().item == item { s.last().count as int } else { 0 }
    }
}

pub open spec fn contribution(slot: InventorySlot, item: Option<usize>) -> int {
    if slot.item == item { slot.count as int } else { 0 }
}

pub proof fn lemma_total_update(s: Seq<InventorySlot>, i: int, v: InventorySlot, item: Option<usize>)
    requires
        0 <= i < s.len(),
    ensures
        total_of(s.update(i, v), item) == total_of(s, item) - contribution(s[i], item) + contribution(v, item),
    decreases s.len(),
{
    if i == s.len() - 1 {
        assert(s.update(i, v).drop_last() =~= s.drop_last());
    } else {
        lemma_total_update(s.drop_last(), i, v, item);
        assert(s.update(i, v).drop_last() =~= s.drop_last().update(i, v));
    }
}

proof fn lemma_fill_matching_conserves(s: Seq<InventorySlot>, item: Option<usize>, count: int, i: int, other: Option<usize>)
    requires
        0 <= i,
        count >= 0,
        item is Some,
        forall|k: int| 0 <= k < s.len() ==> (#[trigger] s[k]).count <= MAX_STACK_SIZE,
    ensures
        total_of(fill_matching(s, item, count, i).0, item) + fill_matching(s, item, count, i).1 == total_of(s, item) + count,
        other != item && other is Some ==> total_of(fill_matching(s, item, count, i).0, other) == total_of(s, other),
        0 <= fill_matching(s, item, count, i).1 <= count,
        fill_matching(s, item, count, i).0.len() == s.len(),
        forall|k: int| 0 <= k < s.len() ==> (#[trigger] fill_matching(s, item, count, i).0[k]).count <= MAX_STACK_SIZE,
    decreases s.len() - i,
{
    if i < 0 || i >= s.len() || count <= 0 {
    } else if s[i].item == item && s[i].count < MAX_STACK_SIZE {
        let room = MAX_STACK_SIZE - s[i].count;
        let moved = if room < count { room } else { count };
        let v = InventorySlot { item: s[i].item, count: (s[i].count + moved) as u32 };
        let s2 = s.update(i, v);
        lemma_total_update(s, i, v, item);
        lemma_total_update(s, i, v, other);
        lemma_fill_matching_conserves(s2, item, count - moved, i + 1, other);
    } else {
        lemma_fill_matching_conserves(s, item, count, i + 1, other);
    }
}

proof fn lemma_fill_empty_conserves(s: Seq<InventorySlot>, item: Option<usize>, count: int, i: int, other: Option<usize>)
    requires
        0 <= i,
        count >= 0,
        item is Some,
        forall|k: int| 0 <= k < s.len() ==> (#[trigger] s[k]).count <= MAX_STACK_SIZE,
    ensures
        total_of(fill_empty(s, item, count, i).0, item) + fill_empty(s, item, count, i).1 == total_of(s, item) + count,
        other != item && other is Some ==> total_of(fill_empty(s, item, count, i).0, other) == total_of(s, other),
        0 <= fill_empty(s, item, count, i).1 <= count,
        forall|k: int| 0 <= k < s.len() ==> (#[trigger] fill_empty(s, item, count, i).0[k]).count <= MAX_STACK_SIZE,
    decreases s.len() - i,
{
    if i < 0 || i >= s.len() || count <= 0 {
    } else if slot_is_empty(s[i]) {
        let moved = if MAX_STACK_SIZE < count { MAX_STACK_SIZE as int } else { count };
        let v = InventorySlot { item, count: moved as u32 };
        lemma_total_update(s, i, v, item);
        lemma_total_update(s, i, v, other);
        lemma_fill_empty_conserves(s.update(i, v), item, count - moved, i + 1, other);
    } else {
        lemma_fill_empty_conserves(s, item, count, i + 1, other);
    }
}

/// Adding a stack conserves items: what the slots gain of the stack's item
/// type plus what does not fit equals the stack, and no other item type
/// changes, provided no slot held more than a full stack before.
/// (Empty slots that carry no item type may be reused.)
pub proof fn law_add_stack_conserves_items(s: Seq<InventorySlot>, stack: InventorySlot, other: Option<usize>)
    requires
        forall|k: int| 0 <= k < s.len() ==> (#[trigger] s[k]).count <= MAX_STACK_SIZE,
    ensures
        !slot_is_empty(stack) ==> total_of(spec_add_stack(s, stack).0, stack.item) + spec_add_stack(s, stack).1
            == total_of(s, stack.item) + stack.count,
        other != stack.item && other is Some ==> total_of(spec_add_stack(s, stack).0, other) == total_of(s, other),
        0 <= spec_add_stack(s, stack).1 <= stack.count,
{
    if !slot_is_empty(stack) {
        lemma_fill_matching_conserves(s, stack.item, stack.count as int, 0, other);
        let first = fill_matching(s, stack.item, stack.count as int, 0);
        lemma_fill_empty_conserves(first.0, stack.item, first.1, 0, other);
    }
}

/// A slot in normal form: it names an item type exactly when it holds
/// items, and holds at most a full stack.
pub open spec fn slot_normal(slot: InventorySlot) -> bool {
    (slot.item is Some <==> slot.count > 0) && slot.count <= MAX_STACK_SIZE
}

/// How many more items of type `item` the partly filled slots of that type
/// from index `i` on can take.
pub open spec fn topping_room_from(s: Seq<InventorySlot>, item: Option<usize>, i: int) -> int
    decreases s.len() - i,
{
    if i < 0 || i >= s.len() {
        0
    } else {
        (if s[i].item == item && s[i].count > 0 && s[i].count < MAX_STACK_SIZE {
            MAX_STACK_SIZE - s[i].count
        } else {
            0
        }) + topping_room_from(s, item, i + 1)
    }
}

/// The number of empty slots from index `i` on.
pub open spec fn empty_slots_from(s: Seq<InventorySlot>, i: int) -> int
    decreases s.len() - i,
{
    if i < 0 || i >= s.len() {
        0
    } else {
        (if slot_is_empty(s[i]) { 1int } else { 0int }) + empty_slots_from(s, i + 1)
    }
}

/// How many items of type `item` the slots can still take: what tops up the
/// partly filled slots of that type, and a full stack per empty slot.
pub open spec fn room_for(s: Seq<InventorySlot>, item: Option<usize>) -> int {
    topping_room_from(s, item, 0) + MAX_STACK_SIZE * empty_slots_from(s, 0)
}

proof fn lemma_sums_from_agree(s: Seq<InventorySlot>, t: Seq<InventorySlot>, item: Option<usize>, i: int)
    requires
        0 <= i,
        s.len() == t.len(),
        forall|k: int| i <= k < s.len() ==> s[k] == t[k],
    ensures
        topping_room_from(s, item, i) == topping_room_from(t, item, i),
        empty_slots_from(s, i) == empty_slots_from(t, i),
    decreases s.len() - i,
{
    if i < s.len() {
        lemma_sums_from_agree(s, t, item, i + 1);
    }
}

proof fn lemma_room_from_nonneg(s: Seq<InventorySlot>, item: Option<usize>, i: int)
    ensures
        topping_room_from(s, item, i) >= 0,
        empty_slots_from(s, i) >= 0,
    decreases s.len() - i,
{
    if 0 <= i < s.len() {
        lemma_room_from_nonneg(s, item, i + 1);
    }
}

proof fn lemma_empty_slots_update(s: Seq<InventorySlot>, j: int, v: InventorySlot, i: int)
    requires
        0 <= j < s.len(),
        0 <= i,
        slot_is_empty(s[j]) == slot_is_empty(v),
    ensures
        empty_slots_from(s.update(j, v), i) == empty_slots_from(s, i),
    decreases s.len() - i,
{
    if i < s.len() {
        lemma_empty_slots_update(s, j, v, i + 1);
    }
}

proof fn lemma_fill_matching_room(s: Seq<InventorySlot>, item: Option<usize>, count: int, i: int)
    requires
        0 <= i,
        count >= 0,
        item is Some,
        forall|k: int| 0 <= k < s.len() ==> slot_normal(#[trigger] s[k]),
    ensures
        fill_matching(s, item, count, i).1 == (if count <= topping_room_from(s, item, i) { 0 } else {
            count - topping_room_from(s, item, i)
        }),
        empty_slots_from(fill_matching(s, item, count, i).0, 0) == empty_slots_from(s, 0),
        fill_matching(s, item, count, i).0.len() == s.len(),
    decreases s.len() - i,
{
    lemma_room_from_nonneg(s, item, i);
    if i >= s.len() || count <= 0 {
    } else if s[i].item == item && s[i].count < MAX_STACK_SIZE {
        let room = MAX_STACK_SIZE - s[i].count;
        let moved = if room < count { room } else { count };
        let v = InventorySlot { item: s[i].item, count: (s[i].count + moved) as u32 };
        let s2 = s.update(i, v);
        lemma_empty_slots_update(s, i, v, 0);
        lemma_sums_from_agree(s2, s, item, i + 1);
        lemma_room_from_nonneg(s, item, i + 1);
        assert forall|k: int| 0 <= k < s2.len() implies slot_normal(#[trigger] s2[k]) by {
            if k != i {
                assert(s2[k] == s[k]);
            }
        }
        lemma_fill_matching_room(s2, item, count - moved, i + 1);
    } else {
        lemma_fill_matching_room(s, item, count, i + 1);
    }
}

proof fn lemma_fill_empty_room(s: Seq<InventorySlot>, item: Option<usize>, count: int, i: int)
    requires
        0 <= i,
        count >= 0,
    ensures
        fill_empty(s, item, count, i).1 == (if count <= MAX_STACK_SIZE * empty_slots_from(s, i) { 0 } else {
            count - MAX_STACK_SIZE * empty_slots_from(s, i)
        }),
    decreases s.len() - i,
{
    lemma_room_from_nonneg(s, item, i);
    if i >= s.len() || count <= 0 {
    } else if slot_is_empty(s[i]) {
        let moved = if MAX_STACK_SIZE < count { MAX_STACK_SIZE as int } else { count };
        let v = InventorySlot { item, count: moved as u32 };
        let s2 = s.update(i, v);
        lemma_sums_from_agree(s2, s, item, i + 1);
        lemma_room_from_nonneg(s, item, i + 1);
        lemma_fill_empty_room(s2, item, count - moved, i + 1);
    } else {
        lemma_fill_empty_room(s, item, count, i + 1);
    }
}

/// Adding a stack to slots in normal form stores as much of it as the slots
/// have room for: the part that does not fit is what exceeds the room, so the
/// slots gain the smaller of the stack's count and the room.
pub proof fn law_add_stack_fills_room(s: Seq<InventorySlot>, stack: InventorySlot)
    requires
        forall|k: int| 0 <= k < s.len() ==> slot_normal(#[trigger] s[k]),
        !slot_is_empty(stack),
    ensures
        spec_add_stack(s, stack).1 == (if stack.count <= room_for(s, stack.item) { 0 } else {
            stack.count - room_for(s, stack.item)
        }),
        total_of(spec_add_stack(s, stack).0, stack.item) == total_of(s, stack.item) + (if stack.count
            <= room_for(s, stack.item) { stack.count as int } else { room_for(s, stack.item) }),
{
    let item = stack.item;
    let count = stack.count as int;
    lemma_fill_matching_room(s, item, count, 0);
    let first = fill_matching(s, item, count, 0);
    lemma_fill_empty_room(first.0, item, first.1, 0);
    lemma_room_from_nonneg(s, item, 0);
    assert forall|k: int| 0 <= k < s.len() implies (#[trigger] s[k]).count <= MAX_STACK_SIZE by {
        assert(slot_normal(s[k]));
    }
    law_add_stack_conserves_items(s, stack, None);
}

fn get_slot(hotbar: &[InventorySlot; 9], inventory: &[InventorySlot; 27], i: usize) -> (r: InventorySlot)
    requires
        i < 36,
    ensures
        r == (hotbar@ + inventory@)[i as int],
{
    if i < HOTBAR_SIZE {
        hotbar[i]
    } else {
        inventory[i - HOTBAR_SIZE]
    }
}

fn set_slot(hotbar: &mut [InventorySlot; 9], inventory: &mut [InventorySlot; 27], i: usize, v: InventorySlot)
    requires
        i < 36,
    ensures
        final(hotbar)@ + final(inventory)@ == (old(hotbar)@ + old(inventory)@).update(i as int, v),
{
    if i < HOTBAR_SIZE {
        hotbar[i] = v;
    } else {
        inventory[i - HOTBAR_SIZE] = v;
    }
    assert(hotbar@ + inventory@ =~= (old(hotbar)@ + old(inventory)@).update(i as int, v));
}

/// Adds a stack to the hotbar, then the inventory: first topping up slots of
/// the same item type in order, then filling empty slots in order. What does
/// not fit is dropped.
pub fn add_stack_to_inventory(hotbar: &mut [InventorySlot; 9], inventory: &mut [InventorySlot; 27], stack: InventorySlot)
    ensures
        final(hotbar)@ + final(inventory)@ == spec_add_stack(old(hotbar)@ + old(inventory)@, stack).0,
{
    if stack.is_empty() {
        assert(hotbar@ + inventory@ =~= old(hotbar)@ + old(inventory)@);
        return;
    }
    let ghost s0 = hotbar@ + inventory@;
    let mut count: u32 = stack.count;
    let mut i: usize = 0;
    while i < 36
        invariant
            i <= 36,
            !slot_is_empty(stack),
            s0 == old(hotbar)@ + old(inventory)@,
            fill_matching(hotbar@ + inventory@, stack.item, count as int, i as int) == fill_matching(s0, stack.item, stack.count as int, 0),
            count > 0,
            (hotbar@ + inventory@).len() == 36,
        decreases 36 - i,
    {
        let slot = get_slot(hotbar, inventory, i);
        if slot.item == stack.item && slot.count < MAX_STACK_SIZE {
            let room = MAX_STACK_SIZE - slot.count;
            let moved = if room < count { room } else { count };
            let ghost old_s = hotbar@ + inventory@;
            let ghost old_count = count;
            set_slot(hotbar, inventory, i, InventorySlot { item: slot.item, count: slot.count + moved });
            count = count - moved;
            assert(fill_matching(old_s, stack.item, old_count as int, i as int) == fill_matching(hotbar@ + inventory@, stack.item, count as int, i + 1));
            if count == 0 {
                assert(fill_matching(hotbar@ + inventory@, stack.item, 0, i + 1) == (hotbar@ + inventory@, 0int));
                assert(fill_empty(hotbar@ + inventory@, stack.item, 0, 0) == (hotbar@ + inventory@, 0int));
                assert(spec_add_stack(s0, stack).0 == hotbar@ + inventory@);
                return;
            }
        }
        i = i + 1;
    }
    let ghost first = fill_matching(s0, stack.item, stack.count as int, 0);
    assert(first == (hotbar@ + inventory@, count as int));
    let mut i: usize = 0;
    while i < 36
        invariant
            i <= 36,
            !slot_is_empty(stack),
            s0 == old(hotbar)@ + old(inventory)@,
            first == fill_matching(s0, stack.item, stack.count as int, 0),
            fill_empty(hotbar@ + inventory@, stack.item, count as int, i as int) == fill_empty(first.0, stack.item, first.1, 0),
            count > 0,
            (hotbar@ + inventory@).len() == 36,
        decreases 36 - i,
    {
        let slot = get_slot(hotbar, inventory, i);
        if slot.is_empty() {
            let moved = if MAX_STACK_SIZE < count { MAX_STACK_SIZE } else { count };
            let ghost old_s = hotbar@ + inventory@;
            let ghost old_count = count;
            set_slot(hotbar, inventory, i, InventorySlot { item: stack.item, count: moved });
            count = count - moved;
            assert(fill_empty(old_s, stack.item, old_count as int, i as int) == fill_empty(hotbar@ + inventory@, stack.item, count as int, i + 1));
            if count == 0 {
                assert(fill_empty(hotbar@ + inventory@, stack.item, 0, i + 1) == (hotbar@ + inventory@, 0int));
                assert(spec_add_stack(s0, stack).0 == hotbar@ + inventory@);
                return;
            }
        }
        i = i + 1;
    }
}

/// Adds `count` items of type `item` (see `add_stack_to_inventory`).
pub fn add_item_to_inventory(hotbar: &mut [InventorySlot; 9], inventory: &mut [InventorySlot; 27], item: usize, count: u32)
    ensures
        final(hotbar)@ + final(inventory)@ == spec_add_stack(old(hotbar)@ + old(inventory)@, InventorySlot { item: Some(item), count }).0,
{
    add_stack_to_inventory(hotbar, inventory, InventorySlot { item: Some(item), count });
}

/// The counts of the hotbar slots.
pub fn hotbar_counts_from_slots(slots: &[InventorySlot; 9]) -> (r: [u32; 9])
    ensures
        forall|i: int| 0 <= i < 9 ==> #[trigger] r@[i] == slots@[i].count,
{
    let mut out: [u32; 9] = [0; 9];
    let mut i: usize = 0;
    while i < 9
        invariant
            i <= 9,
            forall|j: int| 0 <= j < i ==> #[trigger] out@[j] == slots@[j].count,
        decreases 9 - i,
    {
        out[i] = slots[i].count;
        i = i + 1;
    }
    out
}

/// The item types of the hotbar slots, for drawing.
pub fn hotbar_render_slots(slots: &[InventorySlot; 9]) -> (r: [Option<usize>; 9])
    ensures
        forall|i: int| 0 <= i < 9 ==> #[trigger] r@[i] == slots@[i].item,
{
    let mut out: [Option<usize>; 9] = [None; 9];
    let mut i: usize = 0;
    while i < 9
        invariant
            i <= 9,
            forall|j: int| 0 <= j < i ==> #[trigger] out@[j] == slots@[j].item,
        decreases 9 - i,
    {
        out[i] = slots[i].item;
        i = i + 1;
    }
    out
}

/// The counts of the hotbar slots, for drawing.
pub fn hotbar_render_counts(slots: &[InventorySlot; 9]) -> (r: [u32; 9])
    ensures
        forall|i: int| 0 <= i < 9 ==> #[trigger] r@[i] == slots@[i].count,
{
    hotbar_counts_from_slots(slots)
}

/// The item types of the inventory slots, for drawing.
pub fn inventory_render_slots(slots: &[InventorySlot; 27]) -> (r: [Option<usize>; 27])
    ensures
        forall|i: int| 0 <= i < 27 ==> #[trigger] r@[i] == slots@[i].item,
{
    let mut out: [Option<usize>; 27] = [None; 27];
    let mut i: usize = 0;
    while i < 27
        invariant
            i <= 27,
            forall|j: int| 0 <= j < i ==> #[trigger] out@[j] == slots@[j].item,
        decreases 27 - i,
    {
        out[i] = slots[i].item;
        i = i + 1;
    }
    out
}

/// The counts of the inventory slots, for drawing.
pub fn inventory_render_counts(slots: &[InventorySlot; 27]) -> (r: [u32; 27])
    ensures
        forall|i: int| 0 <= i < 27 ==> #[trigger] r@[i] == slots@[i].count,
{
    let mut out: [u32; 27] = [0; 27];
    let mut i: usize = 0;
    while i < 27
        invariant
            i <= 27,
            forall|j: int| 0 <= j < i ==> #[trigger] out@[j] == slots@[j].count,
        decreases 27 - i,
    {
        out[i] = slots[i].count;
        i = i + 1;
    }
    out
}

/// The hotbar restored from a save: saved slots, sanitized, in order, or,
/// when none of them holds anything, the older per-palette counts (slot `i`
/// holds palette item `i`, capped at a full stack).
pub open spec fn spec_saved_hotbar(saved_slots: Seq<InventorySlot>, saved_counts: Seq<u32>) -> Seq<InventorySlot> {
    let from_slots = Seq::new(9, |i: int| if i < saved_slots.len() { spec_sanitize(saved_slots[i]) } else { spec_empty_slot() });
    if forall|i: int| 0 <= i < 9 ==> slot_is_empty(#[trigger] from_slots[i]) {
        Seq::new(9, |i: int| if i < saved_counts.len() && saved_counts[i] > 0 {
            InventorySlot {
                item: Some(i as usize),
                count: if saved_counts[i] < MAX_STACK_SIZE { saved_counts[i] } else { MAX_STACK_SIZE },
            }
        } else {
            spec_empty_slot()
        })
    } else {
        from_slots
    }
}

/// Restores the hotbar and inventory of a saved player.
pub fn inventory_from_saved_player(
    saved_hotbar_slots: &Vec<InventorySlot>,
    saved_hotbar_counts: &Vec<u32>,
    saved_inventory_slots: &Vec<InventorySlot>,
) -> (r: ([InventorySlot; 9], [InventorySlot; 27]))
    ensures
        r.0@ == spec_saved_hotbar(saved_hotbar_slots@, saved_hotbar_counts@),
        forall|i: int| 0 <= i < 27 ==> #[trigger] r.1@[i] == if i < saved_inventory_slots@.len() {
            spec_sanitize(saved_inventory_slots@[i])
        } else {
            spec_empty_slot()
        },
{
    let mut hotbar: [InventorySlot; 9] = [InventorySlot::empty(); 9];
    let mut i: usize = 0;
    while i < 9
        invariant
            i <= 9,
            forall|j: int| 0 <= j < 9 ==> #[trigger] hotbar@[j] == if j < i && j < saved_hotbar_slots@.len() {
                spec_sanitize(saved_hotbar_slots@[j])
            } else {
                spec_empty_slot()
            },
        decreases 9 - i,
    {
        if i < saved_hotbar_slots.len() {
            hotbar[i] = sanitize_inventory_slot(saved_hotbar_slots[i]);
        }
        i = i + 1;
    }
    let ghost from_slots = hotbar@;
    let mut all_empty = true;
    let mut i: usize = 0;
    while i < 9
        invariant
            i <= 9,
            hotbar@ == from_slots,
            all_empty == forall|j: int| 0 <= j < i ==> slot_is_empty(#[trigger] from_slots[j]),
        decreases 9 - i,
    {
        if !hotbar[i].is_empty() {
            all_empty = false;
        }
        i = i + 1;
    }
    proof {
        let fs = Seq::new(9, |i: int| if i < saved_hotbar_slots@.len() { spec_sanitize(saved_hotbar_slots@[i]) } else { spec_empty_slot() });
        assert(fs =~= from_slots);
    }
    if all_empty {
        let mut i: usize = 0;
        while i < 9
            invariant
                i <= 9,
                forall|j: int| 0 <= j < 9 ==> #[trigger] hotbar@[j] == if j < i && j < saved_hotbar_counts@.len() && saved_hotbar_counts@[j] > 0 {
                    InventorySlot {
                        item: Some(j as usize),
                        count: if saved_hotbar_counts@[j] < MAX_STACK_SIZE { saved_hotbar_counts@[j] } else { MAX_STACK_SIZE },
                    }
                } else {
                    spec_empty_slot()
                },
            decreases 9 - i,
        {
            if i < saved_hotbar_counts.len() && saved_hotbar_counts[i] > 0 {
                let c = saved_hotbar_counts[i];
                hotbar[i] = InventorySlot { item: Some(i), count: if c < MAX_STACK_SIZE { c } else { MAX_STACK_SIZE } };
            }
            i = i + 1;
        }
        proof {
            let fc = Seq::new(9, |i: int| if i < saved_hotbar_counts@.len() && saved_hotbar_counts@[i] > 0 {
                InventorySlot {
                    item: Some(i as usize),
                    count: if saved_hotbar_counts@[i] < MAX_STACK_SIZE { saved_hotbar_counts@[i] } else { MAX_STACK_SIZE },
                }
            } else {
                spec_empty_slot()
            });
            assert(fc =~= hotbar@);
        }
    }
    let mut inventory: [InventorySlot; 27] = [InventorySlot::empty(); 27];
    let mut i: usize = 0;
    while i < 27
        invariant
            i <= 27,
            forall|j: int| 0 <= j < 27 ==> #[trigger] inventory@[j] == if j < i && j < saved_inventory_slots@.len() {
                spec_sanitize(saved_inventory_slots@[j])
            } else {
                spec_empty_slot()
            },
        decreases 27 - i,
    {
        if i < saved_inventory_slots.len() {
            inventory[i] = sanitize_inventory_slot(saved_inventory_slots[i]);
        }
        i = i + 1;
    }
    (hotbar, inventory)
}

} // verus!
