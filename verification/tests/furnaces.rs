use loudstone::block::{self, BlockId};
use loudstone::furnaces::forget_orphan_furnaces;
use loudstone::inventory::ItemStack;
use loudstone::item::{self, ItemId};
use loudstone::ordered_map::OrderedMap;
use loudstone::save::{BlockPos, ContainerKind, ContainerSave, SaveData, CONTAINER_CHEST, CONTAINER_FURNACE};

fn bits(x: f32) -> u32 {
    x.to_bits()
}

fn idle_furnace() -> ContainerSave {
    ContainerSave::new(ContainerKind(CONTAINER_FURNACE), 3, 3)
}

fn one_furnace(pos: BlockPos, furnace: ContainerSave) -> OrderedMap<BlockPos, ContainerSave> {
    let mut furnaces = OrderedMap::new();
    furnaces.insert(pos, furnace);
    furnaces
}

#[test]
fn a_broken_furnace_hands_its_contents_back_and_leaves_nothing_behind() {
    let pos = (8, 64, -4);
    // Two seconds into smelting two raw iron on one coal: the coal has gone
    // into the flame and no ingot is done yet.
    let furnace = ContainerSave::furnace(
        Some(ItemStack::new(ItemId(item::RAW_IRON), 2)),
        None,
        None,
        bits(78.0),
        bits(80.0),
        bits(2.0),
    );
    // Ask the furnace what it is holding rather than assuming.
    let mut expected: Vec<ItemStack> = furnace.slots.iter().flatten().copied().collect();
    assert!(!expected.is_empty(), "the test furnace must hold something");
    let mut furnaces = one_furnace(pos, furnace);

    // The block is gone; the map entry has not caught up yet.
    let mut salvage = forget_orphan_furnaces(&mut furnaces, pos, pos, |_, _, _| BlockId(block::AIR));

    assert!(
        furnaces.is_empty(),
        "an orphan entry here is a save that grows forever and a furnace that resurrects its contents for whoever builds on the spot next"
    );
    expected.sort_by_key(|s| s.item.0);
    salvage.sort_by_key(|s| s.item.0);
    assert_eq!(salvage, expected, "everything inside should come back out");
}

#[test]
fn a_furnace_that_is_still_standing_is_left_alone() {
    let pos = (8, 64, -4);
    let mut furnaces = one_furnace(pos, idle_furnace());
    let salvage = forget_orphan_furnaces(&mut furnaces, pos, pos, |_, _, _| BlockId(block::FURNACE));
    assert_eq!(furnaces.len(), 1);
    assert!(salvage.is_empty());
}

#[test]
fn a_furnace_outside_the_swept_region_is_never_touched() {
    let far = (900, 64, -900);
    let mut furnaces = one_furnace(far, idle_furnace());
    forget_orphan_furnaces(&mut furnaces, (0, 0, 0), (16, 80, 16), |_, _, _| BlockId(block::AIR));
    assert_eq!(
        furnaces.len(),
        1,
        "a furnace in an unloaded chunk must survive a sweep somewhere else"
    );
}

#[test]
fn a_sweep_salvages_in_position_order_and_keeps_the_rest() {
    let coal = ItemStack::new(ItemId(item::COAL), 3);
    let iron = ItemStack::new(ItemId(item::RAW_IRON), 5);
    let ingot = ItemStack::new(ItemId(item::IRON_INGOT), 1);
    let mut furnaces = OrderedMap::new();
    // Inserted out of order; the sweep goes by position.
    furnaces.insert((5, 10, 0), ContainerSave::furnace(Some(iron), None, Some(ingot), 0, 0, 0));
    furnaces.insert((1, 10, 0), ContainerSave::furnace(None, Some(coal), None, 0, 0, 0));
    furnaces.insert((3, 10, 0), idle_furnace());
    furnaces.insert((40, 10, 0), ContainerSave::furnace(Some(iron), Some(coal), None, 0, 0, 0));
    // Only the furnace at x = 3 still stands; x = 40 is outside the box.
    let salvage = forget_orphan_furnaces(&mut furnaces, (0, 0, 0), (16, 16, 16), |x, _, _| {
        if x == 3 {
            BlockId(block::FURNACE)
        } else {
            BlockId(block::AIR)
        }
    });
    assert_eq!(salvage, vec![coal, iron, ingot]);
    assert_eq!(furnaces.len(), 2);
    assert!(furnaces.contains_key(&(3, 10, 0)));
    assert!(furnaces.contains_key(&(40, 10, 0)));
    assert!(!furnaces.contains_key(&(1, 10, 0)));
    assert!(!furnaces.contains_key(&(5, 10, 0)));
}

#[test]
fn capturing_furnaces_replaces_furnace_records_and_keeps_every_other_kind() {
    let coal = ItemStack::new(ItemId(item::COAL), 3);
    let iron = ItemStack::new(ItemId(item::RAW_IRON), 5);
    let ingot = ItemStack::new(ItemId(item::IRON_INGOT), 1);
    let mut data = SaveData::new(7);
    let mut chest = ContainerSave::new(ContainerKind(CONTAINER_CHEST), 27, 0);
    chest.slots[0] = Some(coal);
    data.set_container((0, 0, 0), chest.clone());
    let mut odd = ContainerSave::new(ContainerKind(4321), 2, 1);
    odd.slots[1] = Some(iron);
    data.set_container((1, 0, 0), odd.clone());
    data.set_container((2, 0, 0), ContainerSave::furnace(Some(iron), Some(coal), None, 0, 0, 0));
    data.set_container((3, 0, 0), ContainerSave::furnace(None, Some(coal), None, 0, 0, 0));

    let updated = ContainerSave::furnace(Some(iron), None, Some(ingot), bits(40.0), bits(80.0), 0);
    let placed = ContainerSave::furnace(None, Some(coal), None, 0, 0, 0);
    data.capture_furnaces(vec![
        ((2, 0, 0), updated.clone()),
        ((5, 0, 0), placed.clone()),
        ((6, 0, 0), idle_furnace()),
    ]);

    assert_eq!(data.containers.len(), 4);
    assert_eq!(data.container((0, 0, 0)), Some(&chest));
    assert_eq!(data.container((1, 0, 0)), Some(&odd), "unknown kinds survive");
    assert_eq!(data.container((2, 0, 0)), Some(&updated));
    assert_eq!(data.container((3, 0, 0)), None, "a furnace that is gone is not kept");
    assert_eq!(data.container((5, 0, 0)), Some(&placed));
    assert_eq!(data.container((6, 0, 0)), None, "an idle furnace is not worth bytes");
}
