use ferrumcraft::inventory::{
    add_item_to_inventory, add_stack_to_inventory, click_inventory_slot, hotbar_counts_from_slots,
    inventory_from_saved_player, inventory_render_counts, inventory_render_slots, remove_one_from_slot,
    sanitize_inventory_slot, InventorySlot,
};

fn slot(item: Option<usize>, count: u32) -> InventorySlot {
    InventorySlot { item, count }
}

#[test]
fn adding_tops_up_matching_stacks_before_empty_slots() {
    let mut hotbar = [InventorySlot::default(); 9];
    let mut inventory = [InventorySlot::default(); 27];
    hotbar[3] = slot(Some(2), 60);
    inventory[0] = slot(Some(2), 10);
    add_item_to_inventory(&mut hotbar, &mut inventory, 2, 70);
    assert_eq!(hotbar[3], slot(Some(2), 64));
    assert_eq!(inventory[0], slot(Some(2), 64));
    assert_eq!(hotbar[0], slot(Some(2), 12));
}

#[test]
fn overflow_beyond_all_slots_is_dropped() {
    let mut hotbar = [slot(Some(1), 64); 9];
    let mut inventory = [slot(Some(1), 64); 27];
    inventory[26] = InventorySlot::default();
    add_stack_to_inventory(&mut hotbar, &mut inventory, slot(Some(0), 200));
    assert_eq!(inventory[26], slot(Some(0), 64));
    add_stack_to_inventory(&mut hotbar, &mut inventory, slot(None, 5));
    assert_eq!(inventory[26], slot(Some(0), 64));
}

#[test]
fn clicking_swaps_or_merges() {
    let mut s = slot(Some(1), 60);
    let mut carried = slot(Some(1), 10);
    click_inventory_slot(&mut s, &mut carried);
    assert_eq!(s, slot(Some(1), 64));
    assert_eq!(carried, slot(Some(1), 6));
    let mut carried = slot(Some(2), 3);
    click_inventory_slot(&mut s, &mut carried);
    assert_eq!(s, slot(Some(2), 3));
    assert_eq!(carried, slot(Some(1), 64));
    let mut s = slot(Some(4), 10);
    let mut carried = slot(Some(4), 5);
    click_inventory_slot(&mut s, &mut carried);
    assert_eq!(s, slot(Some(4), 15));
    assert_eq!(carried, slot(None, 0));
}

#[test]
fn removing_and_sanitizing() {
    let mut s = slot(Some(3), 1);
    remove_one_from_slot(&mut s);
    assert_eq!(s, slot(None, 0));
    assert_eq!(sanitize_inventory_slot(slot(Some(9), 4)), slot(None, 0));
    assert_eq!(sanitize_inventory_slot(slot(Some(8), 400)), slot(Some(8), 64));
    assert_eq!(sanitize_inventory_slot(slot(Some(8), 0)), slot(None, 0));
}

#[test]
fn saved_players_restore_slots_or_legacy_counts() {
    let (hotbar, inventory) = inventory_from_saved_player(&vec![slot(Some(5), 3)], &vec![7, 8], &vec![slot(Some(1), 100)]);
    assert_eq!(hotbar[0], slot(Some(5), 3));
    assert_eq!(hotbar[1], slot(None, 0));
    assert_eq!(inventory[0], slot(Some(1), 64));
    let (hotbar, _) = inventory_from_saved_player(&vec![], &vec![0, 70, 2], &vec![]);
    assert_eq!(hotbar[0], slot(None, 0));
    assert_eq!(hotbar[1], slot(Some(1), 64));
    assert_eq!(hotbar[2], slot(Some(2), 2));
    assert_eq!(hotbar_counts_from_slots(&hotbar)[1], 64);
    let inv = [slot(Some(6), 9); 27];
    assert_eq!(inventory_render_slots(&inv)[26], Some(6));
    assert_eq!(inventory_render_counts(&inv)[0], 9);
}

#[test]
fn adding_a_stack_stores_as_much_as_there_is_room_for() {
    let mut hotbar = [slot(Some(2), 64); 9];
    let mut inventory = [slot(Some(2), 64); 27];
    hotbar[3] = slot(Some(1), 60);
    inventory[10] = InventorySlot { item: None, count: 0 };
    // Room for item 1: 4 to top up slot 3 and a full stack in the empty slot.
    add_stack_to_inventory(&mut hotbar, &mut inventory, slot(Some(1), 100));
    assert_eq!(hotbar[3], slot(Some(1), 64));
    assert_eq!(inventory[10], slot(Some(1), 64));
    let total: u32 = hotbar.iter().chain(inventory.iter()).filter(|s| s.item == Some(1)).map(|s| s.count).sum();
    assert_eq!(total, 128);
}
