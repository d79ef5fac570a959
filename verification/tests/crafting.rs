use loudstone::crafting::{craft, recipe_for, recipes, resolve, smelt_result, Pattern};
use loudstone::inventory::ItemStack;
use loudstone::item::{self, ItemId};
use loudstone::ui::Ui;

const EM: Option<ItemId> = None;
const PL: Option<ItemId> = Some(ItemId(item::PLANKS));
const ST: Option<ItemId> = Some(ItemId(item::STICK));
const CB: Option<ItemId> = Some(ItemId(item::COBBLESTONE));
const IN: Option<ItemId> = Some(ItemId(item::IRON_INGOT));
const CO: Option<ItemId> = Some(ItemId(item::COAL));
const WD: Option<ItemId> = Some(ItemId(item::WOOD));

fn g3(cells: [Option<ItemId>; 9]) -> Vec<Option<ItemStack>> {
    cells.iter().map(|c| c.map(ItemStack::one)).collect()
}

fn g2(cells: [Option<ItemId>; 4]) -> Vec<Option<ItemStack>> {
    cells.iter().map(|c| c.map(ItemStack::one)).collect()
}

#[test]
fn planks_from_wood_anywhere_in_either_grid() {
    for slot in 0..9 {
        let mut cells = [EM; 9];
        cells[slot] = WD;
        let out = resolve(&g3(cells)).expect("wood should always give planks");
        assert_eq!(out.item, ItemId(item::PLANKS));
        assert_eq!(out.count, 4);
    }
    let out = resolve(&g2([EM, WD, EM, EM])).unwrap();
    assert_eq!((out.item, out.count), (ItemId(item::PLANKS), 4));
}

#[test]
fn sticks_from_two_planks_stacked() {
    let out = resolve(&g3([EM, EM, EM, EM, PL, EM, EM, PL, EM])).unwrap();
    assert_eq!((out.item, out.count), (ItemId(item::STICK), 4));
    let out = resolve(&g2([EM, PL, EM, PL])).unwrap();
    assert_eq!((out.item, out.count), (ItemId(item::STICK), 4));
    assert!(resolve(&g2([PL, PL, EM, EM])).is_none());
}

#[test]
fn crafting_table_from_four_planks() {
    let out = resolve(&g2([PL, PL, PL, PL])).unwrap();
    assert_eq!((out.item, out.count), (ItemId(item::CRAFTING_TABLE), 1));
    let out = resolve(&g3([EM, PL, PL, EM, PL, PL, EM, EM, EM])).unwrap();
    assert_eq!(out.item, ItemId(item::CRAFTING_TABLE));
    assert!(resolve(&g2([PL, PL, PL, EM])).is_none());
}

#[test]
fn furnace_from_eight_cobblestone() {
    let out = resolve(&g3([CB, CB, CB, CB, EM, CB, CB, CB, CB])).unwrap();
    assert_eq!((out.item, out.count), (ItemId(item::FURNACE), 1));
    assert!(resolve(&g3([CB, CB, CB, CB, CB, CB, CB, CB, CB])).is_none());
    assert!(resolve(&g3([EM, CB, CB, CB, EM, CB, CB, CB, CB])).is_none());
}

#[test]
fn torches_from_coal_over_a_stick() {
    let out = resolve(&g2([CO, EM, ST, EM])).unwrap();
    assert_eq!((out.item, out.count), (ItemId(item::TORCH), 4));
    assert!(resolve(&g2([ST, EM, CO, EM])).is_none());
}

#[test]
fn every_pickaxe_tier() {
    for (mat, want) in [
        (PL, ItemId(item::WOODEN_PICKAXE)),
        (CB, ItemId(item::STONE_PICKAXE)),
        (IN, ItemId(item::IRON_PICKAXE)),
    ] {
        let out = resolve(&g3([mat, mat, mat, EM, ST, EM, EM, ST, EM])).unwrap();
        assert_eq!(out.item, want);
        assert_eq!(out.count, 1);
    }
}

#[test]
fn every_axe_tier_in_both_handednesses() {
    for (mat, want) in [
        (PL, ItemId(item::WOODEN_AXE)),
        (CB, ItemId(item::STONE_AXE)),
        (IN, ItemId(item::IRON_AXE)),
    ] {
        let right = resolve(&g3([mat, mat, EM, mat, ST, EM, EM, ST, EM])).unwrap();
        assert_eq!(right.item, want);
        let left = resolve(&g3([EM, mat, mat, EM, ST, mat, EM, ST, EM])).unwrap();
        assert_eq!(left.item, want);
    }
}

#[test]
fn every_sword_tier() {
    for (mat, want) in [
        (PL, ItemId(item::WOODEN_SWORD)),
        (CB, ItemId(item::STONE_SWORD)),
        (IN, ItemId(item::IRON_SWORD)),
    ] {
        let out = resolve(&g3([EM, mat, EM, EM, mat, EM, EM, ST, EM])).unwrap();
        assert_eq!(out.item, want);
        let out = resolve(&g3([mat, EM, EM, mat, EM, EM, ST, EM, EM])).unwrap();
        assert_eq!(out.item, want);
    }
}

#[test]
fn the_table_holds_about_a_dozen_recipes() {
    let n = recipes().len();
    assert!(n >= 12, "expected ~12 recipes, found {n}");
}

#[test]
fn every_recipe_names_items_that_exist() {
    for r in recipes() {
        assert!(r.output.is_valid(), "recipe makes an item that does not exist");
        assert!(r.count > 0 && r.count <= 64);
        match &r.pattern {
            Pattern::Shapeless(items) => {
                assert!(!items.is_empty());
                for i in items {
                    assert!(i.is_valid(), "{i:?} is not a real item");
                }
            }
            Pattern::Shaped { width, height, cells } => {
                assert_eq!(cells.len(), width * height);
                assert!(*width <= 3 && *height <= 3, "pattern will never fit a grid");
                for i in cells.iter().flatten() {
                    assert!(i.is_valid(), "{i:?} is not a real item");
                }
            }
        }
    }
}

#[test]
fn near_misses_resolve_to_none() {
    assert!(resolve(&g3([EM; 9])).is_none());
    assert!(resolve(&g3([PL, PL, PL, PL, ST, EM, EM, ST, EM])).is_none());
    assert!(resolve(&g3([PL, PL, EM, EM, ST, EM, EM, ST, EM])).is_none());
    assert!(resolve(&g3([ST, ST, ST, EM, ST, EM, EM, ST, EM])).is_none());
    assert!(resolve(&g3([PL, CB, PL, EM, ST, EM, EM, ST, EM])).is_none());
    assert!(resolve(&g3([PL, EM, EM, EM, EM, EM, ST, EM, EM])).is_none());
    assert!(resolve(&[]).is_none());
    assert!(resolve(&[None; 6]).is_none());
}

#[test]
fn a_shapeless_recipe_rejects_extra_ingredients() {
    assert!(resolve(&g2([WD, WD, EM, EM])).is_none());
}

#[test]
fn stack_counts_do_not_affect_matching() {
    let grid = vec![Some(ItemStack::new(ItemId(item::WOOD), 64)), None, None, None];
    let out = resolve(&grid).unwrap();
    assert_eq!((out.item, out.count), (ItemId(item::PLANKS), 4));
}

#[test]
fn craft_spends_one_from_each_cell() {
    let mut grid = vec![
        Some(ItemStack::new(ItemId(item::PLANKS), 3)),
        None,
        Some(ItemStack::new(ItemId(item::PLANKS), 1)),
        None,
    ];
    let out = craft(&mut grid).unwrap();
    assert_eq!((out.item, out.count), (ItemId(item::STICK), 4));
    assert_eq!(grid[0].unwrap().count, 2);
    assert!(grid[2].is_none());
}

#[test]
fn craft_on_a_non_recipe_changes_nothing() {
    let mut grid = vec![Some(ItemStack::new(ItemId(item::DIRT), 4)), None, None, None];
    assert!(craft(&mut grid).is_none());
    assert_eq!(grid[0].unwrap().count, 4);
}

#[test]
fn a_tool_in_the_grid_never_matches() {
    let mut cells = [EM; 9];
    cells[0] = Some(ItemId(item::WOODEN_PICKAXE));
    assert!(resolve(&g3(cells)).is_none());
}

#[test]
fn recipe_for_reports_the_matched_recipe() {
    let r = recipe_for(&g2([PL, PL, PL, PL])).unwrap();
    assert_eq!(r.output, ItemId(item::CRAFTING_TABLE));
    assert!(recipe_for(&g2([EM; 4])).is_none());
}

#[test]
fn raw_iron_smelts_to_an_ingot() {
    assert_eq!(smelt_result(ItemId(item::RAW_IRON)), Some(ItemId(item::IRON_INGOT)));
    assert_eq!(smelt_result(ItemId(item::COBBLESTONE)), None);
    assert_eq!(smelt_result(ItemId(item::IRON_INGOT)), None);
}

#[test]
fn a_2x2_grid_cannot_make_a_pickaxe_but_a_3x3_can() {
    assert_eq!(Ui::Inventory.craft_cells(), 4);
    assert_eq!(Ui::Table.craft_cells(), 9);
    let stack = |item: u16, n: u8| Some(ItemStack::new(ItemId(item), n));

    let two = [
        stack(item::COBBLESTONE, 1),
        stack(item::COBBLESTONE, 1),
        stack(item::STICK, 1),
        stack(item::STICK, 1),
    ];
    assert!(resolve(&two).is_none(), "a pickaxe must not be craftable in the 2x2 grid");

    let three = [
        stack(item::COBBLESTONE, 1),
        stack(item::COBBLESTONE, 1),
        stack(item::COBBLESTONE, 1),
        None,
        stack(item::STICK, 1),
        None,
        None,
        stack(item::STICK, 1),
        None,
    ];
    let out = resolve(&three).expect("3x3 must resolve a stone pickaxe");
    assert_eq!(out.item, ItemId(item::STONE_PICKAXE));
}

#[test]
fn crafting_a_second_time_keeps_consuming() {
    let mut grid = vec![Some(ItemStack::new(ItemId(item::WOOD), 2)), None, None, None];
    assert_eq!(craft(&mut grid).map(|s| s.count), Some(4));
    assert_eq!(craft(&mut grid).map(|s| s.count), Some(4));
    assert!(grid[0].is_none());
    assert!(craft(&mut grid).is_none());
}

fn fuel_seconds(item: ItemId) -> Option<f32> {
    item.fuel_seconds().map(|s| s as f32)
}

#[test]
fn coal_is_fuel_and_iron_is_not() {
    assert_eq!(fuel_seconds(ItemId(item::COAL)), Some(80.0));
    assert_eq!(fuel_seconds(ItemId(item::IRON_INGOT)), None);
    assert_eq!(fuel_seconds(ItemId(item::RAW_IRON)), None);
    assert!(fuel_seconds(ItemId(item::PLANKS)).unwrap() < fuel_seconds(ItemId(item::COAL)).unwrap());
}
