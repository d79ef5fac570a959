use loudstone::inventory::{Inventory, ItemStack, HOTBAR_SIZE, MAIN_SIZE, SLOT_COUNT, STACK_LIMIT};
use loudstone::item::{self, ItemId};

fn id(n: u16) -> ItemId {
    ItemId(n)
}

#[test]
fn stack_merges_up_to_the_limit() {
    let mut a = ItemStack::new(id(item::COBBLESTONE), 60);
    let leftover = a.merge(ItemStack::new(id(item::COBBLESTONE), 10));
    assert_eq!(a.count, 64);
    assert_eq!(leftover.map(|s| s.count), Some(6));
}

#[test]
fn stack_merge_rejects_different_items() {
    let mut a = ItemStack::new(id(item::COBBLESTONE), 1);
    let leftover = a.merge(ItemStack::new(id(item::DIRT), 1));
    assert_eq!(a.count, 1);
    assert_eq!(leftover.map(|s| s.item), Some(id(item::DIRT)));
}

#[test]
fn tools_never_stack() {
    let a = ItemStack::one(id(item::IRON_PICKAXE));
    let b = ItemStack::one(id(item::IRON_PICKAXE));
    assert!(!a.stacks_with(b));
    assert_eq!(a.count, 1);
    assert_eq!(a.max_stack(), 1);
    assert_eq!(a.durability, 251);
    assert_eq!(ItemStack::new(id(item::IRON_PICKAXE), 64).count, 1);
}

#[test]
fn split_takes_the_smaller_half_and_leaves_the_rest() {
    let mut a = ItemStack::new(id(item::STICK), 7);
    let half = a.split_half().unwrap();
    assert_eq!(half.count, 3);
    assert_eq!(a.count, 4);
    let mut single = ItemStack::new(id(item::STICK), 1);
    assert!(single.split_half().is_none());
    assert_eq!(single.count, 1);
}

#[test]
fn split_rejects_overreach() {
    let mut a = ItemStack::new(id(item::STICK), 5);
    assert!(a.split(5).is_none());
    assert!(a.split(9).is_none());
    assert!(a.split(0).is_none());
    assert_eq!(a.count, 5);
}

#[test]
fn add_overflows_into_a_second_slot_at_64() {
    let mut inv = Inventory::new();
    assert_eq!(inv.add_item(id(item::COBBLESTONE), 100), 0);
    assert_eq!(inv.count(id(item::COBBLESTONE)), 100);
    assert_eq!(inv.slot(0).unwrap().count, 64);
    assert_eq!(inv.slot(1).unwrap().count, 36);
}

#[test]
fn add_tops_up_partial_stacks_before_taking_a_new_slot() {
    let mut inv = Inventory::new();
    inv.set_slot(0, Some(ItemStack::new(id(item::DIRT), 60)));
    assert_eq!(inv.add_item(id(item::DIRT), 10), 0);
    assert_eq!(inv.slot(0).unwrap().count, 64);
    assert_eq!(inv.slot(1).unwrap().count, 6);
}

#[test]
fn add_reports_what_does_not_fit_when_full() {
    let mut inv = Inventory::new();
    for i in 0..SLOT_COUNT {
        inv.set_slot(i, Some(ItemStack::new(id(item::SAND), 64)));
    }
    assert_eq!(inv.count(id(item::SAND)), 64 * SLOT_COUNT as u32);
    let leftover = inv.add(ItemStack::new(id(item::DIRT), 10));
    assert_eq!(leftover.map(|s| s.count), Some(10));
    assert_eq!(inv.add_item(id(item::SAND), 5), 5);
}

#[test]
fn add_item_reports_partial_fit() {
    let mut inv = Inventory::new();
    for i in 0..SLOT_COUNT {
        inv.set_slot(i, Some(ItemStack::new(id(item::SAND), 64)));
    }
    inv.set_slot(0, Some(ItemStack::new(id(item::SAND), 54)));
    assert_eq!(inv.add_item(id(item::SAND), 30), 20);
    assert_eq!(inv.slot(0).unwrap().count, 64);
}

#[test]
fn remove_drains_across_slots_and_reports_the_shortfall() {
    let mut inv = Inventory::new();
    inv.add_item(id(item::COBBLESTONE), 100);
    assert_eq!(inv.remove(id(item::COBBLESTONE), 70), 70);
    assert_eq!(inv.count(id(item::COBBLESTONE)), 30);
    assert_eq!(inv.remove(id(item::COBBLESTONE), 50), 30);
    assert_eq!(inv.count(id(item::COBBLESTONE)), 0);
    assert!(inv.is_empty());
}

#[test]
fn move_stack_merges_or_swaps() {
    let mut inv = Inventory::new();
    inv.set_slot(0, Some(ItemStack::new(id(item::PLANKS), 30)));
    inv.set_slot(1, Some(ItemStack::new(id(item::PLANKS), 20)));
    inv.move_stack(0, 1);
    assert_eq!(inv.slot(1).unwrap().count, 50);
    assert!(inv.slot(0).is_none());

    inv.set_slot(0, Some(ItemStack::new(id(item::DIRT), 3)));
    inv.move_stack(0, 1);
    assert_eq!(inv.slot(0).unwrap().item, id(item::PLANKS));
    assert_eq!(inv.slot(1).unwrap().item, id(item::DIRT));
}

#[test]
fn move_stack_leaves_overflow_behind() {
    let mut inv = Inventory::new();
    inv.set_slot(0, Some(ItemStack::new(id(item::PLANKS), 40)));
    inv.set_slot(1, Some(ItemStack::new(id(item::PLANKS), 40)));
    inv.move_stack(0, 1);
    assert_eq!(inv.slot(1).unwrap().count, 64);
    assert_eq!(inv.slot(0).unwrap().count, 16);
}

#[test]
fn split_stack_between_slots() {
    let mut inv = Inventory::new();
    inv.set_slot(0, Some(ItemStack::new(id(item::COAL), 9)));
    assert!(inv.split_stack(0, 5));
    assert_eq!(inv.slot(0).unwrap().count, 5);
    assert_eq!(inv.slot(5).unwrap().count, 4);
    assert!(inv.split_stack(0, 5));
    assert_eq!(inv.slot(0).unwrap().count, 3);
    assert_eq!(inv.slot(5).unwrap().count, 6);
}

#[test]
fn split_stack_into_an_incompatible_slot_does_nothing() {
    let mut inv = Inventory::new();
    inv.set_slot(0, Some(ItemStack::new(id(item::COAL), 8)));
    inv.set_slot(1, Some(ItemStack::new(id(item::DIRT), 1)));
    assert!(!inv.split_stack(0, 1));
    assert_eq!(inv.slot(0).unwrap().count, 8);
    assert_eq!(inv.slot(1).unwrap().count, 1);
}

#[test]
fn split_returns_overflow_to_the_source() {
    let mut inv = Inventory::new();
    inv.set_slot(0, Some(ItemStack::new(id(item::COAL), 40)));
    inv.set_slot(1, Some(ItemStack::new(id(item::COAL), 54)));
    assert!(inv.split_stack(0, 1));
    assert_eq!(inv.slot(1).unwrap().count, 64);
    assert_eq!(inv.slot(0).unwrap().count, 30);
    assert_eq!(inv.count(id(item::COAL)), 94);
}

#[test]
fn merge_stacks_never_swaps() {
    let mut inv = Inventory::new();
    inv.set_slot(0, Some(ItemStack::new(id(item::DIRT), 5)));
    inv.set_slot(1, Some(ItemStack::new(id(item::SAND), 5)));
    assert!(!inv.merge_stacks(0, 1));
    assert_eq!(inv.slot(0).unwrap().item, id(item::DIRT));
    assert_eq!(inv.slot(1).unwrap().item, id(item::SAND));
}

#[test]
fn selection_wraps_the_hotbar() {
    let mut inv = Inventory::new();
    assert_eq!(inv.selected(), 0);
    inv.cycle_selection(-1);
    assert_eq!(inv.selected(), 8);
    inv.cycle_selection(3);
    assert_eq!(inv.selected(), 2);
    inv.set_selected(7);
    assert_eq!(inv.selected(), 7);
    inv.set_selected(20);
    assert_eq!(inv.selected(), 7);
}

#[test]
fn durability_wears_down_and_the_tool_vanishes() {
    let mut inv = Inventory::new();
    inv.set_slot(0, Some(ItemStack::one(id(item::WOODEN_PICKAXE))));
    assert_eq!(inv.slot(0).unwrap().durability, 60);
    for _ in 0..59 {
        assert!(!inv.damage_selected(1));
    }
    assert_eq!(inv.slot(0).unwrap().durability, 1);
    let stack = inv.slot(0).unwrap();
    let wear = stack.durability as f32 / stack.item.max_durability() as f32;
    assert!((wear - 1.0 / 60.0).abs() < 1e-6);
    assert!(inv.damage_selected(1));
    assert!(inv.slot(0).is_none());
}

#[test]
fn damaging_a_non_tool_does_nothing() {
    let mut inv = Inventory::new();
    inv.set_slot(0, Some(ItemStack::new(id(item::DIRT), 10)));
    assert!(!inv.damage_selected(100));
    assert_eq!(inv.slot(0).unwrap().count, 10);
}

#[test]
fn drop_all_empties_and_returns_everything() {
    let mut inv = Inventory::new();
    inv.add_item(id(item::COBBLESTONE), 100);
    inv.add(ItemStack::one(id(item::STONE_PICKAXE)));
    let dropped = inv.drop_all();
    assert_eq!(dropped.len(), 3);
    assert_eq!(dropped.iter().map(|s| s.count as u32).sum::<u32>(), 101);
    assert!(inv.is_empty());
    assert_eq!(inv.count(id(item::COBBLESTONE)), 0);
}

#[test]
fn take_from_slot_clears_when_emptied() {
    let mut inv = Inventory::new();
    inv.set_slot(0, Some(ItemStack::new(id(item::TORCH), 3)));
    assert_eq!(inv.take_from_slot(0, 2).unwrap().count, 2);
    assert_eq!(inv.slot(0).unwrap().count, 1);
    assert_eq!(inv.take_from_slot(0, 9).unwrap().count, 1);
    assert!(inv.slot(0).is_none());
    assert!(inv.take_from_slot(0, 1).is_none());
}

#[test]
fn hotbar_and_main_partition_the_slots() {
    let inv = Inventory::new();
    assert_eq!(inv.hotbar().len(), HOTBAR_SIZE);
    assert_eq!(inv.main().len(), MAIN_SIZE);
    assert_eq!(SLOT_COUNT, 36);
    assert_eq!(STACK_LIMIT, 64);
}

#[test]
fn adding_then_removing_conserves_the_count() {
    let mut inv = Inventory::new();
    assert_eq!(inv.add_item(id(item::DIRT), 130), 0);
    assert_eq!(inv.count(id(item::DIRT)), 130);
    assert_eq!(inv.remove(id(item::DIRT), 130), 130);
    assert!(inv.is_empty());
}

#[test]
fn first_empty_skips_occupied_slots() {
    let mut inv = Inventory::new();
    assert_eq!(inv.first_empty(), Some(0));
    inv.set_slot(0, Some(ItemStack::new(id(item::DIRT), 1)));
    inv.set_slot(1, Some(ItemStack::new(id(item::DIRT), 1)));
    assert_eq!(inv.first_empty(), Some(2));
    assert!(inv.has(id(item::DIRT), 2));
    assert!(!inv.has(id(item::DIRT), 3));
}
