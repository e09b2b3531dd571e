use ferrumcraft::block::BlockId;
use ferrumcraft::controls::{
    adjusted_render_distance, break_block, fixed_steps, hotbar_after_digits, hotbar_after_scroll, keep_or_take_back,
    next_classic_view, pick_block, place_selected_block, toggle_inventory, Scroll,
};
use ferrumcraft::inventory::InventorySlot;
use ferrumcraft::world::{BlockPos, World};

#[test]
fn digit_keys_select_the_last_pressed_slot() {
    let mut pressed = [false; 9];
    assert_eq!(hotbar_after_digits(3, pressed), 3);
    pressed[1] = true;
    pressed[5] = true;
    assert_eq!(hotbar_after_digits(3, pressed), 5);
}

#[test]
fn wheel_moves_the_selection_around_the_hotbar() {
    assert_eq!(hotbar_after_scroll(0, Scroll::Up), 8);
    assert_eq!(hotbar_after_scroll(5, Scroll::Up), 4);
    assert_eq!(hotbar_after_scroll(8, Scroll::Down), 0);
    assert_eq!(hotbar_after_scroll(2, Scroll::Down), 3);
    assert_eq!(hotbar_after_scroll(4, Scroll::Still), 4);
}

#[test]
fn render_distance_stays_between_zero_and_sixteen() {
    assert_eq!(adjusted_render_distance(4, 1), 5);
    assert_eq!(adjusted_render_distance(16, 3), 16);
    assert_eq!(adjusted_render_distance(0, -1), 0);
    assert_eq!(adjusted_render_distance(4, -2), 2);
}

#[test]
fn classic_view_distances_cycle_far_to_near() {
    assert_eq!(next_classic_view(0), (1, 4));
    assert_eq!(next_classic_view(1), (2, 2));
    assert_eq!(next_classic_view(2), (3, 1));
    assert_eq!(next_classic_view(3), (0, 4));
}

#[test]
fn closing_the_inventory_puts_the_carried_stack_back() {
    let mut hotbar = [InventorySlot::empty(); 9];
    let mut inventory = [InventorySlot::empty(); 27];
    hotbar[0] = InventorySlot { item: Some(1), count: 3 };
    let mut carried = InventorySlot { item: Some(2), count: 5 };
    // Opening keeps the carried stack where it is.
    assert!(toggle_inventory(false, &mut hotbar, &mut inventory, &mut carried));
    assert_eq!(carried, InventorySlot { item: Some(2), count: 5 });
    assert_eq!(hotbar[1], InventorySlot::empty());
    // Closing moves it into the first empty slot.
    assert!(!toggle_inventory(true, &mut hotbar, &mut inventory, &mut carried));
    assert!(carried.is_empty());
    assert_eq!(hotbar[0], InventorySlot { item: Some(1), count: 3 });
    assert_eq!(hotbar[1], InventorySlot { item: Some(2), count: 5 });
}

#[test]
fn placing_needs_air_water_or_lava_and_a_free_cell() {
    let mut world = World::new();
    let pos = BlockPos(1, 10, 1);
    let previous = place_selected_block(&mut world, pos, 0).expect("air accepts a block");
    assert_eq!(previous, BlockId::air());
    assert_eq!(world.get_block(pos), BlockId("stone".to_string()));
    // Stone into stone: refused.
    assert!(place_selected_block(&mut world, pos, 1).is_none());
    assert_eq!(world.get_block(pos), BlockId("stone".to_string()));
    // An obstructed stone is taken back.
    assert!(!keep_or_take_back(&mut world, pos, 0, previous, true));
    assert_eq!(world.get_block(pos), BlockId::air());
    // A sapling stays even where it is obstructed.
    let water = BlockPos(2, 10, 1);
    world.set_block(water, BlockId("water".to_string()));
    let previous = place_selected_block(&mut world, water, 4).expect("water accepts a block");
    assert_eq!(previous, BlockId("water".to_string()));
    assert!(keep_or_take_back(&mut world, water, 4, previous, true));
    assert_eq!(world.get_block(water), BlockId("oak_sapling".to_string()));
}

#[test]
fn breaking_spares_bedrock_and_floods_the_edge() {
    let mut world = World::new();
    let bedrock = BlockPos(5, 0, 5);
    world.set_block(bedrock, BlockId("bedrock".to_string()));
    assert!(!break_block(&mut world, bedrock));
    assert_eq!(world.get_block(bedrock), BlockId("bedrock".to_string()));
    let edge = BlockPos(0, 31, 5);
    world.set_block(edge, BlockId("stone".to_string()));
    assert!(break_block(&mut world, edge));
    assert_eq!(world.get_block(edge), BlockId("water".to_string()));
    let inner = BlockPos(6, 31, 5);
    world.set_block(inner, BlockId("stone".to_string()));
    assert!(break_block(&mut world, inner));
    assert_eq!(world.get_block(inner), BlockId::air());
}

#[test]
fn picking_selects_the_slot_of_the_dropped_block() {
    let mut world = World::new();
    let grass = BlockPos(3, 20, 3);
    world.set_block(grass, BlockId("grass_block".to_string()));
    assert_eq!(pick_block(&world, grass, 7), 1);
    let glass = BlockPos(4, 20, 3);
    world.set_block(glass, BlockId("glass".to_string()));
    assert_eq!(pick_block(&world, glass, 7), 7);
    let sand = BlockPos(5, 20, 3);
    world.set_block(sand, BlockId("sand".to_string()));
    assert_eq!(pick_block(&world, sand, 0), 7);
}

#[test]
fn frames_run_whole_ticks_and_keep_the_rest() {
    assert_eq!(fixed_steps(0, 49_999_999), (0, 49_999_999));
    assert_eq!(fixed_steps(30_000_000, 30_000_000), (1, 10_000_000));
    assert_eq!(fixed_steps(0, 249_999_999), (4, 49_999_999));
    // The most ticks ran: what is left is dropped.
    assert_eq!(fixed_steps(0, 250_000_000), (5, 0));
    assert_eq!(fixed_steps(10, 1_000_000_000), (5, 0));
}
