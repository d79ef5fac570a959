use loudstone::block::{self, BlockId};
use loudstone::inventory::{Inventory, ItemStack, SLOT_COUNT};
use loudstone::item::{self, ItemId};
use loudstone::ui::{
    merge_into_cell, return_panel_items, right_click, store_output, swap_carried, take_craft_output,
    take_furnace_output, FurnaceSlots, RightClick, Ui,
};

#[test]
fn inventory_cursor_never_merges_or_repairs_tools() {
    let mut carried = Some(ItemStack::worn(ItemId(item::IRON_PICKAXE), 200));
    let mut cell = Some(ItemStack::worn(ItemId(item::IRON_PICKAXE), 75));

    swap_carried(&mut carried, &mut cell, false);

    assert_eq!(carried, Some(ItemStack::worn(ItemId(item::IRON_PICKAXE), 75)));
    assert_eq!(cell, Some(ItemStack::worn(ItemId(item::IRON_PICKAXE), 200)));
}

#[test]
fn inventory_cursor_uses_each_items_stack_limit() {
    let mut carried = Some(ItemStack::new(ItemId(item::COBBLESTONE), 10));
    let mut cell = Some(ItemStack::new(ItemId(item::COBBLESTONE), 60));

    swap_carried(&mut carried, &mut cell, false);

    assert_eq!(cell.map(|s| s.count), Some(ItemId(item::COBBLESTONE).max_stack()));
    assert_eq!(carried.map(|s| s.count), Some(6));
}

#[test]
fn output_collection_never_overwrites_an_incompatible_carried_stack() {
    let mut inventory = Inventory::new();
    for index in 0..SLOT_COUNT {
        inventory.set_slot(index, Some(ItemStack::new(ItemId(item::DIRT), 64)));
    }
    let held = ItemStack::worn(ItemId(item::IRON_PICKAXE), 71);
    let mut carried = Some(held);

    assert!(!store_output(&mut inventory, &mut carried, ItemStack::new(ItemId(item::IRON_INGOT), 1)));
    assert_eq!(carried, Some(held));
    assert_eq!(inventory.count(ItemId(item::IRON_INGOT)), 0);
}

#[test]
fn closing_a_full_furnace_panel_returns_the_cursor_stack_to_the_furnace() {
    let mut inventory = Inventory::new();
    for index in 0..SLOT_COUNT {
        inventory.set_slot(index, Some(ItemStack::new(ItemId(item::DIRT), 64)));
    }
    let coal = ItemStack::new(ItemId(item::COAL), 8);
    let mut carried = Some(coal);
    let mut grid = [None; 9];
    let mut furnace = Some(FurnaceSlots { input: None, fuel: None });

    assert!(return_panel_items(&mut inventory, &mut carried, &mut grid, &mut furnace));
    assert!(carried.is_none());
    assert_eq!(furnace.unwrap().input, Some(coal));
}

#[test]
fn closing_a_panel_with_no_room_keeps_everything_in_place() {
    let mut inventory = Inventory::new();
    for index in 0..SLOT_COUNT {
        inventory.set_slot(index, Some(ItemStack::new(ItemId(item::DIRT), 64)));
    }
    let sand = ItemStack::new(ItemId(item::SAND), 3);
    let mut carried = Some(sand);
    let mut grid = [None; 9];
    let mut no_furnace: Option<FurnaceSlots> = None;

    assert!(!return_panel_items(&mut inventory, &mut carried, &mut grid, &mut no_furnace));
    assert_eq!(carried, Some(sand));
    assert_eq!(inventory.count(ItemId(item::SAND)), 0);
}

#[test]
fn closing_a_panel_returns_the_grid_to_the_inventory() {
    let mut inventory = Inventory::new();
    let mut carried = Some(ItemStack::new(ItemId(item::PLANKS), 2));
    let mut grid = [None; 9];
    grid[4] = Some(ItemStack::new(ItemId(item::PLANKS), 3));
    let mut no_furnace: Option<FurnaceSlots> = None;

    assert!(return_panel_items(&mut inventory, &mut carried, &mut grid, &mut no_furnace));
    assert!(carried.is_none());
    assert!(grid.iter().all(|c| c.is_none()));
    assert_eq!(inventory.count(ItemId(item::PLANKS)), 5);
}

#[test]
fn merging_into_a_cell_stops_at_the_stack_limit() {
    let mut cell = Some(ItemStack::new(ItemId(item::COAL), 60));
    let rest = merge_into_cell(&mut cell, ItemStack::new(ItemId(item::COAL), 10));
    assert_eq!(cell.map(|s| s.count), Some(64));
    assert_eq!(rest.map(|s| s.count), Some(6));
    let mut empty = None;
    assert!(merge_into_cell(&mut empty, ItemStack::new(ItemId(item::COAL), 10)).is_none());
    assert_eq!(empty.map(|s| s.count), Some(10));
}

#[test]
fn only_item_panels_are_panels() {
    assert!(!Ui::Title.is_panel());
    assert!(!Ui::Playing.is_panel());
    assert!(Ui::Inventory.is_panel());
    assert!(Ui::Table.is_panel());
    assert!(Ui::Furnace((1, 2, 3)).is_panel());
    assert_eq!(Ui::Furnace((1, 2, 3)).craft_cells(), 4);
}

fn full_of(item: u16) -> Inventory {
    let mut inventory = Inventory::new();
    for index in 0..SLOT_COUNT {
        inventory.set_slot(index, Some(ItemStack::new(ItemId(item), 64)));
    }
    inventory
}

#[test]
fn taking_a_craft_output_spends_the_grid_and_stores_the_result() {
    let mut inventory = Inventory::new();
    let mut carried = None;
    let mut grid = [None; 9];
    grid[0] = Some(ItemStack::new(ItemId(item::WOOD), 3));
    // A cell past the 2x2 grid is not part of the craft and is left alone.
    grid[6] = Some(ItemStack::new(ItemId(item::DIRT), 1));

    assert!(take_craft_output(&mut inventory, &mut carried, &mut grid, 4));

    assert_eq!(grid[0], Some(ItemStack::new(ItemId(item::WOOD), 2)));
    assert_eq!(grid[6], Some(ItemStack::new(ItemId(item::DIRT), 1)));
    assert_eq!(inventory.count(ItemId(item::PLANKS)), 4);
    assert_eq!(carried, None);
}

#[test]
fn a_craft_output_with_nowhere_to_go_is_not_crafted() {
    let mut inventory = full_of(item::DIRT);
    let mut carried = Some(ItemStack::new(ItemId(item::STONE), 1));
    let mut grid = [None; 9];
    grid[0] = Some(ItemStack::new(ItemId(item::WOOD), 1));
    let before = inventory;

    assert!(!take_craft_output(&mut inventory, &mut carried, &mut grid, 4));

    assert_eq!(grid[0], Some(ItemStack::new(ItemId(item::WOOD), 1)), "nothing spent");
    assert_eq!(carried, Some(ItemStack::new(ItemId(item::STONE), 1)));
    assert_eq!(inventory.slots(), before.slots());
}

#[test]
fn a_full_inventory_sends_a_craft_output_to_an_empty_cursor() {
    let mut inventory = full_of(item::DIRT);
    let mut carried = None;
    let mut grid = [None; 9];
    grid[4] = Some(ItemStack::new(ItemId(item::WOOD), 1));

    assert!(take_craft_output(&mut inventory, &mut carried, &mut grid, 9));

    assert_eq!(grid[4], None);
    assert_eq!(carried, Some(ItemStack::new(ItemId(item::PLANKS), 4)));
}

#[test]
fn a_grid_that_is_no_recipe_gives_nothing() {
    let mut inventory = Inventory::new();
    let mut carried = None;
    let mut grid = [None; 9];
    grid[0] = Some(ItemStack::new(ItemId(item::DIRT), 5));

    assert!(!take_craft_output(&mut inventory, &mut carried, &mut grid, 4));
    assert_eq!(grid[0], Some(ItemStack::new(ItemId(item::DIRT), 5)));
    assert_eq!(inventory.count(ItemId(item::DIRT)), 0);
}

#[test]
fn the_furnace_output_only_ever_gives() {
    let mut inventory = Inventory::new();
    let mut carried = None;
    let mut output = Some(ItemStack::new(ItemId(item::IRON_INGOT), 3));
    assert!(take_furnace_output(&mut inventory, &mut carried, &mut output));
    assert_eq!(output, None);
    assert_eq!(inventory.count(ItemId(item::IRON_INGOT)), 3);

    // Nothing to take.
    assert!(!take_furnace_output(&mut inventory, &mut carried, &mut output));
    assert_eq!(output, None);

    // Nowhere to put it: it stays in the furnace.
    let mut inventory = full_of(item::DIRT);
    let mut carried = Some(ItemStack::new(ItemId(item::STONE), 1));
    let mut output = Some(ItemStack::new(ItemId(item::IRON_INGOT), 3));
    assert!(!take_furnace_output(&mut inventory, &mut carried, &mut output));
    assert_eq!(output, Some(ItemStack::new(ItemId(item::IRON_INGOT), 3)));
    assert_eq!(carried, Some(ItemStack::new(ItemId(item::STONE), 1)));
}

#[test]
fn right_clicking_a_workstation_opens_it_and_anything_else_places_the_held_block() {
    let pos = (8, 64, -4);
    let planks = Some(ItemStack::new(ItemId(item::PLANKS), 5));
    assert_eq!(right_click(BlockId(block::FURNACE), pos, planks), RightClick::Open(Ui::Furnace(pos)));
    assert_eq!(right_click(BlockId(block::CRAFTING_TABLE), pos, planks), RightClick::Open(Ui::Table));
    assert_eq!(right_click(BlockId(block::STONE), pos, planks), RightClick::Place(BlockId(block::PLANKS)));
    assert_eq!(
        right_click(BlockId(block::STONE), pos, Some(ItemStack::new(ItemId(item::STICK), 1))),
        RightClick::Nothing,
        "a stick is not a block"
    );
    assert_eq!(right_click(BlockId(block::STONE), pos, None), RightClick::Nothing);
}

#[test]
fn closing_a_panel_keeps_every_item() {
    let mut inventory = Inventory::new();
    inventory.set_slot(0, Some(ItemStack::new(ItemId(item::COAL), 10)));
    let mut carried = Some(ItemStack::new(ItemId(item::COAL), 7));
    let mut grid = [None; 9];
    grid[0] = Some(ItemStack::new(ItemId(item::COAL), 60));
    grid[3] = Some(ItemStack::new(ItemId(item::WOOD), 2));
    let mut furnace = None;
    assert!(return_panel_items(&mut inventory, &mut carried, &mut grid, &mut furnace));
    assert_eq!(inventory.count(ItemId(item::COAL)), 77);
    assert_eq!(inventory.count(ItemId(item::WOOD)), 2);
    assert_eq!(carried, None);
    assert!(grid.iter().all(|c| c.is_none()));
}
