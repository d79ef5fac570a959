use std::collections::HashMap;

use loudstone::block::{self, BlockId};
use loudstone::chunk::{Chunk, ChunkPos, CHUNK_VOL, MASK_BYTES, SUBVOX};
use loudstone::crafting::{craft, smelt_result};
use loudstone::inventory::{Inventory, ItemStack};
use loudstone::item::{self, mining_drop, ItemId};
use loudstone::mob::MobKind;
use loudstone::save::{
    locate, EditOp, mask_clear, mask_get, mask_is_empty, unlocate, ChangeTracker, ContainerKind,
    ContainerSave, MobSave, PlayerSave, SaveData, SaveError, WorldEdit, CONTAINER_CHEST,
    CONTAINER_FURNACE, FULL_MASK, FURNACE_FUEL, FURNACE_INPUT, FURNACE_OUTPUT, MAGIC, VERSION,
};
use loudstone::save_read::load_from_bytes;
use loudstone::save_write::save_to_bytes;

fn b(n: u8) -> BlockId {
    BlockId(n)
}

fn i(n: u16) -> ItemId {
    ItemId(n)
}

fn f(x: f32) -> u32 {
    x.to_bits()
}

fn v3(x: f32, y: f32, z: f32) -> [u32; 3] {
    [x.to_bits(), y.to_bits(), z.to_bits()]
}

/// A world that stores only what it is told, exercising the default
/// `set_mask_at`, which replays carves one sub-voxel at a time.
#[derive(Default)]
struct CarveWorld {
    blocks: HashMap<(i32, i32, i32), BlockId>,
    masks: HashMap<(i32, i32, i32), [u8; MASK_BYTES]>,
}

impl WorldEdit for CarveWorld {
    fn world_block(&self, p: (i32, i32, i32)) -> BlockId {
        *self.blocks.get(&p).unwrap_or(&b(block::AIR))
    }
    fn world_solid(&self, p: (i32, i32, i32), s: u16) -> bool {
        let (sx, sz, sy) = ((s % 8) as usize, ((s / 8) % 8) as usize, (s / 64) as usize);
        self.world_block(p) != b(block::AIR)
            && self.masks.get(&p).map_or(true, |m| mask_get(m, sx, sy, sz))
    }
    fn set_block_at(&mut self, x: i32, y: i32, z: i32, id: BlockId) {
        self.blocks.insert((x, y, z), id);
        self.masks.remove(&(x, y, z));
    }
    fn carve_at(&mut self, x: i32, y: i32, z: i32, sx: usize, sy: usize, sz: usize) -> bool {
        let mask = self.masks.entry((x, y, z)).or_insert(FULL_MASK);
        mask_clear(mask, sx, sy, sz);
        if mask_is_empty(mask) {
            self.masks.remove(&(x, y, z));
            self.blocks.insert((x, y, z), b(block::AIR));
            return true;
        }
        false
    }
}

/// The same world, but installing masks wholesale via an override.
#[derive(Default)]
struct FastWorld {
    blocks: HashMap<(i32, i32, i32), BlockId>,
    masks: HashMap<(i32, i32, i32), [u8; MASK_BYTES]>,
}

impl WorldEdit for FastWorld {
    fn world_block(&self, p: (i32, i32, i32)) -> BlockId {
        *self.blocks.get(&p).unwrap_or(&b(block::AIR))
    }
    fn world_solid(&self, p: (i32, i32, i32), s: u16) -> bool {
        let (sx, sz, sy) = ((s % 8) as usize, ((s / 8) % 8) as usize, (s / 64) as usize);
        self.world_block(p) != b(block::AIR)
            && self.masks.get(&p).map_or(true, |m| mask_get(m, sx, sy, sz))
    }
    fn set_block_at(&mut self, x: i32, y: i32, z: i32, id: BlockId) {
        self.blocks.insert((x, y, z), id);
        self.masks.remove(&(x, y, z));
    }
    fn carve_at(&mut self, _x: i32, _y: i32, _z: i32, _: usize, _: usize, _: usize) -> bool {
        unreachable!("FastWorld installs masks directly")
    }
    fn set_mask_at(&mut self, x: i32, y: i32, z: i32, mask: &[u8; MASK_BYTES]) {
        self.masks.insert((x, y, z), *mask);
    }
}

/// A save with both kinds of world edit plus a full player state.
fn populated() -> SaveData {
    let mut data = SaveData::new(0xC0FFEE);
    data.player = PlayerSave { pos: v3(12.5, 71.25, -300.75), yaw: f(1.75), pitch: f(-0.5), health: f(13.5) };
    data.inventory.add_item(i(item::COBBLESTONE), 100);
    data.inventory.add(ItemStack::worn(i(item::STONE_PICKAXE), 77));
    data.inventory.add_item(i(item::TORCH), 12);
    data.inventory.set_selected(3);

    data.edits.note_set_block(5, 70, 5, b(block::PLANKS));
    data.edits.note_set_block(5, 71, 5, b(block::AIR));
    data.edits.note_set_block(-40, 12, 300, b(block::TORCH));
    data.edits.note_set_block(200, 250, -200, b(block::COBBLESTONE));

    for sx in 0..4 {
        data.edits.note_carve(9, 64, 9, sx, 0, 0);
    }
    for sy in 0..SUBVOX {
        for sz in 0..SUBVOX {
            for sx in 0..7 {
                data.edits.note_carve(-1, 33, -1, sx, sy, sz);
            }
        }
    }

    data.mobs = vec![
        MobSave { kind: MobKind::Zombie, pos: v3(14.5, 71.0, -298.0), vel: v3(0.75, -1.25, -0.5), yaw: f(2.25), health: f(7.5), on_ground: true },
        MobSave { kind: MobKind::Skeleton, pos: v3(-6.0, 64.0, 12.25), vel: v3(-2.0, 0.0, 3.5), yaw: f(-1.5), health: f(16.0), on_ground: false },
        MobSave { kind: MobKind::Creeper, pos: v3(0.25, 65.5, 0.75), vel: v3(0.0, 0.0, 0.0), yaw: f(0.0), health: f(0.5), on_ground: true },
        MobSave { kind: MobKind::Pig, pos: v3(-33.5, 70.0, 44.0), vel: v3(0.0, -9.5, 0.0), yaw: f(3.0), health: f(10.0), on_ground: false },
    ];

    data.set_container(
        (5, 70, 6),
        ContainerSave::furnace(
            Some(ItemStack::new(i(item::RAW_IRON), 5)),
            Some(ItemStack::new(i(item::COAL), 3)),
            Some(ItemStack::new(i(item::IRON_INGOT), 2)),
            f(43.5),
            f(80.0),
            f(6.25),
        ),
    );
    data.set_container(
        (-40, 12, 301),
        ContainerSave::furnace(None, Some(ItemStack::new(i(item::PLANKS), 1)), None, f(0.0), f(0.0), f(0.0)),
    );
    let mut chest = ContainerSave::new(ContainerKind(CONTAINER_CHEST), 27, 0);
    chest.slots[0] = Some(ItemStack::new(i(item::DIRT), 64));
    chest.slots[26] = Some(ItemStack::worn(i(item::IRON_AXE), 12));
    data.set_container((200, 250, -201), chest);
    data
}

fn assert_same(a: &SaveData, b: &SaveData) {
    assert_eq!(a.seed, b.seed);
    assert_eq!(a.player, b.player);
    assert_eq!(a.inventory.selected(), b.inventory.selected());
    assert_eq!(a.inventory.slots(), b.inventory.slots());
    assert_eq!(a.edits, b.edits);
    assert_eq!(a.mobs, b.mobs);
    assert_eq!(a.containers, b.containers);
}

/// Bytes before the first inventory slot record: magic, version, seed, six
/// player floats, the selected slot, and the occupied-slot count.
const HEADER_BYTES: usize = 4 + 4 + 4 + 24 + 1 + 4;

/// Bytes in one mob record: kind, pos, vel, yaw, health, flags.
const MOB_RECORD: usize = 1 + 12 + 12 + 4 + 4 + 1;

/// A hand-assembled version 1 file, built byte by byte rather than by the
/// writer, so a format change cannot redefine what version 1 means.
fn version_1_bytes() -> Vec<u8> {
    let mut out = Vec::new();
    out.extend_from_slice(&MAGIC);
    out.extend_from_slice(&1u32.to_le_bytes());
    out.extend_from_slice(&4242u32.to_le_bytes());
    for x in [1.5f32, 70.0, -2.25, 0.75, -0.25, 17.5] {
        out.extend_from_slice(&x.to_le_bytes());
    }
    out.push(2);
    out.extend_from_slice(&1u32.to_le_bytes());
    out.push(5);
    out.extend_from_slice(&item::COBBLESTONE.to_le_bytes());
    out.push(30);
    out.extend_from_slice(&0u16.to_le_bytes());
    out.extend_from_slice(&1u32.to_le_bytes());
    let (key, index) = locate(5, 70, 5);
    out.extend_from_slice(&key.0.to_le_bytes());
    out.extend_from_slice(&key.1.to_le_bytes());
    out.extend_from_slice(&key.2.to_le_bytes());
    out.extend_from_slice(&1u32.to_le_bytes());
    out.extend_from_slice(&index.to_le_bytes());
    out.push(block::PLANKS);
    out.extend_from_slice(&0u32.to_le_bytes());
    out
}

#[test]
fn empty_world_round_trips() {
    let data = SaveData::new(42);
    let back = load_from_bytes(&save_to_bytes(&data)).unwrap();
    assert_same(&data, &back);
    assert!(back.edits.is_empty());
    assert!(back.inventory.is_empty());
}

#[test]
fn full_world_round_trips_exactly() {
    let data = populated();
    let back = load_from_bytes(&save_to_bytes(&data)).unwrap();
    assert_same(&data, &back);
}

#[test]
fn carve_masks_survive_bit_for_bit() {
    let data = populated();
    let back = load_from_bytes(&save_to_bytes(&data)).unwrap();

    let light = back.edits.mask_at(9, 64, 9).expect("lightly chipped block");
    for sx in 0..SUBVOX {
        assert_eq!(mask_get(light, sx, 0, 0), sx >= 4, "sub-voxel {sx} wrong");
    }
    assert_eq!(back.edits.block_at(9, 64, 9), None, "block still stands");

    let heavy = back.edits.mask_at(-1, 33, -1).expect("heavily chipped block");
    let solid = heavy.iter().map(|x| x.count_ones()).sum::<u32>();
    assert_eq!(solid, 64, "one column of 8x8 should remain");
    for sy in 0..SUBVOX {
        for sz in 0..SUBVOX {
            assert!(mask_get(heavy, 7, sy, sz));
            assert!(!mask_get(heavy, 0, sy, sz));
        }
    }
}

#[test]
fn a_fully_carved_block_becomes_air_and_drops_its_mask() {
    let mut t = ChangeTracker::new();
    let mut destroyed = false;
    for sy in 0..SUBVOX {
        for sz in 0..SUBVOX {
            for sx in 0..SUBVOX {
                destroyed = t.note_carve(3, 3, 3, sx, sy, sz);
            }
        }
    }
    assert!(destroyed, "the last sub-voxel destroys the block");
    assert_eq!(t.mask_at(3, 3, 3), None);
    assert_eq!(t.block_at(3, 3, 3), Some(b(block::AIR)));

    let mut data = SaveData::new(1);
    data.edits = t.clone();
    let back = load_from_bytes(&save_to_bytes(&data)).unwrap();
    assert_eq!(back.edits, t);
}

#[test]
fn placing_a_block_clears_its_carve_mask() {
    let mut t = ChangeTracker::new();
    t.note_carve(1, 2, 3, 0, 0, 0);
    assert!(t.mask_at(1, 2, 3).is_some());
    t.note_set_block(1, 2, 3, b(block::STONE));
    assert_eq!(t.mask_at(1, 2, 3), None);
    assert_eq!(t.block_at(1, 2, 3), Some(b(block::STONE)));
}

#[test]
fn only_touched_chunks_are_written() {
    let mut t = ChangeTracker::new();
    assert_eq!(t.modified_chunk_count(), 0);
    t.note_set_block(0, 0, 0, b(block::STONE));
    t.note_set_block(15, 15, 15, b(block::STONE));
    t.note_set_block(16, 0, 0, b(block::STONE));
    assert_eq!(t.modified_chunk_count(), 2);

    let mut data = SaveData::new(7);
    data.edits = t;
    let bytes = save_to_bytes(&data);
    assert!(bytes.len() < 128, "save was {} bytes", bytes.len());
}

#[test]
fn negative_coordinates_map_to_the_right_chunk() {
    for (x, y, z) in [(0, 0, 0), (-1, -1, -1), (15, 15, 15), (16, 32, -16), (-17, 200, 4095), (-4096, 1, -1)] {
        let (key, index) = locate(x, y, z);
        assert_eq!(unlocate(key, index), (x, y, z), "round trip failed");
        assert!((index as usize) < CHUNK_VOL);
    }
}

#[test]
fn replay_rebuilds_the_world_through_carves() {
    let data = populated();
    let back = load_from_bytes(&save_to_bytes(&data)).unwrap();

    let mut world = CarveWorld::default();
    back.edits.replay(&mut world);

    assert_eq!(world.blocks.get(&(5, 70, 5)), Some(&b(block::PLANKS)));
    assert_eq!(world.blocks.get(&(5, 71, 5)), Some(&b(block::AIR)));
    assert_eq!(world.blocks.get(&(200, 250, -200)), Some(&b(block::COBBLESTONE)));

    let mask = world.masks.get(&(9, 64, 9)).expect("chipped block restored");
    assert_eq!(mask, back.edits.mask_at(9, 64, 9).unwrap());
    let heavy = world.masks.get(&(-1, 33, -1)).unwrap();
    assert_eq!(heavy, back.edits.mask_at(-1, 33, -1).unwrap());
}

#[test]
fn the_fast_mask_path_agrees_with_the_carve_path() {
    let data = populated();
    let mut slow = CarveWorld::default();
    let mut fast = FastWorld::default();
    data.edits.replay(&mut slow);
    data.edits.replay(&mut fast);
    assert_eq!(slow.blocks, fast.blocks);
    assert_eq!(slow.masks, fast.masks);
}

#[test]
fn replay_chunk_restores_one_chunk_only() {
    let data = populated();
    let mut world = CarveWorld::default();
    data.edits.replay_chunk((0, 4, 0), &mut world);
    assert_eq!(world.blocks.get(&(5, 70, 5)), Some(&b(block::PLANKS)));
    assert!(!world.blocks.contains_key(&(200, 250, -200)));
    data.edits.replay_chunk((999, 0, 999), &mut world);
}

#[test]
fn bad_magic_is_rejected() {
    let mut bytes = save_to_bytes(&SaveData::new(1));
    bytes[0..4].copy_from_slice(b"XXXX");
    match load_from_bytes(&bytes) {
        Err(SaveError::BadMagic(got)) => assert_eq!(&got, b"XXXX"),
        other => panic!("expected BadMagic, got {other:?}"),
    }
}

#[test]
fn an_unknown_version_is_refused_with_a_clear_message() {
    let mut bytes = save_to_bytes(&SaveData::new(1));
    bytes[4..8].copy_from_slice(&99u32.to_le_bytes());
    let err = load_from_bytes(&bytes).unwrap_err();
    match err {
        SaveError::UnsupportedVersion { found, supported } => {
            assert_eq!(found, 99);
            assert_eq!(supported, VERSION);
        }
        other => panic!("expected UnsupportedVersion, got {other:?}"),
    }
    let text = err.message();
    assert!(text.contains("99"), "unhelpful message: {text}");
    assert!(text.contains("not supported"), "unhelpful message: {text}");
}

#[test]
fn truncation_at_every_length_errors_instead_of_panicking() {
    let bytes = save_to_bytes(&populated());
    for cut in 0..bytes.len() {
        let err = load_from_bytes(&bytes[..cut]);
        assert!(err.is_err(), "a {cut}-byte prefix should not load");
    }
    assert!(load_from_bytes(&bytes).is_ok());
}

#[test]
fn garbage_never_panics() {
    let mut state = 0x1234_5678u32;
    for _ in 0..500 {
        let mut buf = Vec::new();
        let len = (state % 300) as usize;
        for _ in 0..len {
            state = state.wrapping_mul(1_103_515_245).wrapping_add(12_345);
            buf.push((state >> 16) as u8);
        }
        let _ = load_from_bytes(&buf);
        let mut with_magic = MAGIC.to_vec();
        with_magic.extend_from_slice(&VERSION.to_le_bytes());
        with_magic.extend_from_slice(&buf);
        let _ = load_from_bytes(&with_magic);
    }
}

#[test]
fn impossible_inventory_data_is_rejected() {
    let mut data = SaveData::new(1);
    data.inventory.set_slot(0, Some(ItemStack::new(i(item::DIRT), 64)));
    let record = HEADER_BYTES;

    let mut bytes = save_to_bytes(&data);
    bytes[record + 3] = 200;
    assert!(matches!(load_from_bytes(&bytes), Err(SaveError::Corrupt("impossible stack size"))));

    let mut bytes = save_to_bytes(&data);
    bytes[record + 1..record + 3].copy_from_slice(&9999u16.to_le_bytes());
    assert!(matches!(load_from_bytes(&bytes), Err(SaveError::Corrupt("unknown item id"))));
}

#[test]
fn tool_durability_survives_the_round_trip() {
    let mut data = SaveData::new(1);
    data.inventory.set_slot(4, Some(ItemStack::worn(i(item::IRON_PICKAXE), 3)));
    let back = load_from_bytes(&save_to_bytes(&data)).unwrap();
    let tool = back.inventory.slot(4).unwrap();
    assert_eq!(tool.item, i(item::IRON_PICKAXE));
    assert_eq!(tool.durability, 3);
    assert_eq!(tool.count, 1);
}

#[test]
fn a_save_is_byte_stable_for_identical_state() {
    let data = populated();
    assert_eq!(save_to_bytes(&data), save_to_bytes(&data));
    let round_tripped = load_from_bytes(&save_to_bytes(&data)).unwrap();
    assert_eq!(save_to_bytes(&data), save_to_bytes(&round_tripped));
}

fn find_slot(inv: &Inventory, item: ItemId) -> usize {
    inv.slots()
        .iter()
        .position(|s| s.is_some_and(|s| s.item == item))
        .unwrap_or_else(|| panic!("{} should be in the inventory", item.name()))
}

fn tool_grid(material: ItemId) -> Vec<Option<ItemStack>> {
    vec![
        Some(ItemStack::one(material)),
        Some(ItemStack::one(material)),
        Some(ItemStack::one(material)),
        None,
        Some(ItemStack::one(i(item::STICK))),
        None,
        None,
        Some(ItemStack::one(i(item::STICK))),
        None,
    ]
}

#[test]
fn the_whole_survival_loop() {
    let mut data = SaveData::new(2024);

    assert_eq!(mining_drop(None, b(block::WOOD)), Some(i(item::WOOD)));
    data.inventory.add_item(i(item::WOOD), 2);

    let mut grid = vec![data.inventory.take_from_slot(0, 1), None, None, None];
    let planks = craft(&mut grid).unwrap();
    assert_eq!((planks.item, planks.count), (i(item::PLANKS), 4));
    data.inventory.add(planks);
    let mut grid = vec![data.inventory.take_from_slot(0, 1), None, None, None];
    data.inventory.add(craft(&mut grid).unwrap());
    assert_eq!(data.inventory.count(i(item::PLANKS)), 8);

    data.inventory.remove(i(item::PLANKS), 2);
    let mut grid = vec![Some(ItemStack::one(i(item::PLANKS))), None, Some(ItemStack::one(i(item::PLANKS))), None];
    let sticks = craft(&mut grid).unwrap();
    assert_eq!((sticks.item, sticks.count), (i(item::STICK), 4));
    data.inventory.add(sticks);

    data.inventory.remove(i(item::PLANKS), 3);
    data.inventory.remove(i(item::STICK), 2);
    let mut grid = tool_grid(i(item::PLANKS));
    let wooden = craft(&mut grid).unwrap();
    assert_eq!(wooden.item, i(item::WOODEN_PICKAXE));
    assert_eq!(wooden.durability, 60);
    data.inventory.add(wooden);

    let pick_slot = find_slot(&data.inventory, i(item::WOODEN_PICKAXE));
    data.inventory.set_selected(pick_slot);
    for n in 0..6 {
        let held = data.inventory.selected_item();
        let drop = mining_drop(held, b(block::STONE)).unwrap();
        assert_eq!(drop, i(item::COBBLESTONE));
        data.inventory.add_item(drop, 1);
        assert!(!data.inventory.damage_selected(1), "a wooden pick should survive six blocks");
        data.edits.note_set_block(10, 60 + n, 10, b(block::AIR));
    }
    assert_eq!(data.inventory.slot(pick_slot).unwrap().durability, 54);
    assert_eq!(data.inventory.count(i(item::COBBLESTONE)), 6);

    data.inventory.add_item(i(item::STICK), 2);
    data.inventory.remove(i(item::COBBLESTONE), 3);
    data.inventory.remove(i(item::STICK), 2);
    let mut grid = tool_grid(i(item::COBBLESTONE));
    let stone_pick = craft(&mut grid).unwrap();
    assert_eq!(stone_pick.item, i(item::STONE_PICKAXE));
    data.inventory.add(stone_pick);

    assert_eq!(mining_drop(Some(i(item::WOODEN_PICKAXE)), b(block::IRON_ORE)), None);
    let raw = mining_drop(Some(i(item::STONE_PICKAXE)), b(block::IRON_ORE)).unwrap();
    assert_eq!(raw, i(item::RAW_IRON));
    data.inventory.add_item(raw, 2);
    data.edits.note_set_block(11, 40, 11, b(block::AIR));

    let coal = mining_drop(Some(i(item::STONE_PICKAXE)), b(block::COAL_ORE)).unwrap();
    data.inventory.add_item(coal, 4);
    // Smelting itself runs on the furnace's clock, outside this library; what
    // it turns the raw iron into is the library's rule.
    let ingot = smelt_result(raw).unwrap();
    let ingots = ItemStack::new(ingot, 2);
    assert_eq!((ingots.item, ingots.count), (i(item::IRON_INGOT), 2));
    data.inventory.add(ingots);

    data.inventory.add_item(i(item::STICK), 1);
    let mut grid = vec![Some(ItemStack::one(i(item::COAL))), None, Some(ItemStack::one(i(item::STICK))), None];
    let torches = craft(&mut grid).unwrap();
    assert_eq!((torches.item, torches.count), (i(item::TORCH), 4));
    data.inventory.add(torches);

    let mut grid = vec![
        Some(ItemStack::one(i(item::PLANKS))),
        Some(ItemStack::one(i(item::PLANKS))),
        Some(ItemStack::one(i(item::PLANKS))),
        Some(ItemStack::one(i(item::PLANKS))),
    ];
    let table = craft(&mut grid).unwrap();
    assert_eq!(table.item, i(item::CRAFTING_TABLE));
    assert_eq!(table.item.places(), Some(b(block::CRAFTING_TABLE)));

    let torch_slot = find_slot(&data.inventory, i(item::TORCH));
    let placed = data.inventory.take_from_slot(torch_slot, 1).unwrap();
    let block = placed.item.places().unwrap();
    assert_eq!(block, b(block::TORCH));
    data.edits.note_set_block(10, 60, 11, block);
    assert_eq!(data.inventory.count(i(item::TORCH)), 3);

    for sx in 0..5 {
        assert!(!data.edits.note_carve(12, 60, 12, sx, 3, 3));
    }
    assert!(data.edits.mask_at(12, 60, 12).is_some());

    data.player.pos = v3(10.5, 61.0, 10.5);
    data.player.health = f(0.0);
    let dropped = data.inventory.drop_all();
    assert!(!dropped.is_empty());
    assert!(data.inventory.is_empty(), "death empties the inventory");

    data.player = PlayerSave { pos: v3(0.5, 72.0, 0.5), yaw: f(0.0), pitch: f(0.0), health: f(20.0) };
    for stack in dropped.into_iter().take(3) {
        data.inventory.add(stack);
    }

    let reloaded = load_from_bytes(&save_to_bytes(&data)).unwrap();
    assert_same(&data, &reloaded);
    assert_eq!(reloaded.seed, 2024);
    assert_eq!(f32::from_bits(reloaded.player.health), 20.0);
    assert_eq!(reloaded.edits.block_at(10, 60, 11), Some(b(block::TORCH)));
    assert_eq!(reloaded.edits.block_at(11, 40, 11), Some(b(block::AIR)));

    let mut world = CarveWorld::default();
    reloaded.edits.replay(&mut world);
    assert_eq!(world.blocks.get(&(10, 60, 11)), Some(&b(block::TORCH)));
    let crater = world.masks.get(&(12, 60, 12)).expect("the crater survived");
    for sx in 0..SUBVOX {
        assert_eq!(mask_get(crater, sx, 3, 3), sx >= 5);
    }
}

#[test]
fn a_version_1_file_still_loads_with_no_mobs_and_no_containers() {
    let data = load_from_bytes(&version_1_bytes()).expect("version 1 must still load");
    assert_eq!(data.seed, 4242);
    assert_eq!(data.player.pos, v3(1.5, 70.0, -2.25));
    assert_eq!(f32::from_bits(data.player.health), 17.5);
    assert_eq!(data.inventory.selected(), 2);
    assert_eq!(data.inventory.slot(5).unwrap().item, i(item::COBBLESTONE));
    assert_eq!(data.inventory.slot(5).unwrap().count, 30);
    assert_eq!(data.edits.block_at(5, 70, 5), Some(b(block::PLANKS)));
    assert!(data.mobs.is_empty(), "version 1 describes no mobs");
    assert!(data.containers.is_empty(), "version 1 describes no containers");
}

#[test]
fn loading_a_version_1_file_and_saving_it_upgrades_it_losslessly() {
    let old = load_from_bytes(&version_1_bytes()).unwrap();
    let bytes = save_to_bytes(&old);
    assert_eq!(
        u32::from_le_bytes(bytes[4..8].try_into().unwrap()),
        VERSION,
        "re-saving must stamp the current version"
    );
    let new = load_from_bytes(&bytes).unwrap();
    assert_same(&old, &new);
    assert_eq!(bytes.len(), version_1_bytes().len() + 8);
}

#[test]
fn a_truncated_version_1_file_errors_instead_of_panicking() {
    let bytes = version_1_bytes();
    for cut in 0..bytes.len() {
        assert!(
            load_from_bytes(&bytes[..cut]).is_err(),
            "a {cut}-byte prefix of a version 1 file should not load"
        );
    }
}

#[test]
fn versions_outside_the_supported_range_are_still_refused() {
    for bad in [0u32, VERSION + 1, 99, u32::MAX] {
        let mut bytes = version_1_bytes();
        bytes[4..8].copy_from_slice(&bad.to_le_bytes());
        match load_from_bytes(&bytes) {
            Err(SaveError::UnsupportedVersion { found, supported }) => {
                assert_eq!(found, bad);
                assert_eq!(supported, VERSION);
            }
            other => panic!("version {bad} should be refused, got {other:?}"),
        }
    }
}

#[test]
fn mobs_round_trip_exactly() {
    let data = populated();
    let back = load_from_bytes(&save_to_bytes(&data)).unwrap();
    assert_eq!(back.mobs.len(), 4);
    assert_eq!(back.mobs, data.mobs);
    for (before, after) in data.mobs.iter().zip(&back.mobs) {
        assert_eq!(before.kind, after.kind);
        assert_eq!(before.pos, after.pos);
        assert_eq!(before.vel, after.vel);
        assert_eq!(before.yaw, after.yaw);
        assert_eq!(before.health, after.health);
        assert_eq!(before.on_ground, after.on_ground);
    }
}

fn one_pig() -> SaveData {
    let mut data = SaveData::new(1);
    data.mobs = vec![MobSave {
        kind: MobKind::Pig,
        pos: v3(0.0, 0.0, 0.0),
        vel: v3(0.0, 0.0, 0.0),
        yaw: f(0.0),
        health: f(10.0),
        on_ground: true,
    }];
    data
}

#[test]
fn an_unknown_mob_kind_is_rejected_rather_than_guessed() {
    let data = one_pig();
    let kind_byte = save_to_bytes(&data).len() - 4 - MOB_RECORD;

    let mut bytes = save_to_bytes(&data);
    bytes[kind_byte] = 9;
    assert!(matches!(load_from_bytes(&bytes), Err(SaveError::Corrupt("unknown mob kind"))));

    let mut bytes = save_to_bytes(&data);
    let health_at = kind_byte + 1 + 12 + 12 + 4;
    bytes[health_at..health_at + 4].copy_from_slice(&0.0f32.to_le_bytes());
    assert!(matches!(load_from_bytes(&bytes), Err(SaveError::Corrupt("mob saved with no health"))));

    let mut bytes = save_to_bytes(&data);
    bytes[kind_byte + MOB_RECORD - 1] = 0xF0;
    assert!(matches!(load_from_bytes(&bytes), Err(SaveError::Corrupt("unknown mob flag bits"))));
}

#[test]
fn a_mob_over_its_kinds_maximum_health_is_capped_not_rejected() {
    let data = one_pig();
    let mut bytes = save_to_bytes(&data);
    let health_at = bytes.len() - 4 - MOB_RECORD + 1 + 12 + 12 + 4;
    bytes[health_at..health_at + 4].copy_from_slice(&999.0f32.to_le_bytes());
    let back = load_from_bytes(&bytes).unwrap();
    assert_eq!(back.mobs[0].health, MobKind::Pig.max_health_bits());
    assert_eq!(f32::from_bits(back.mobs[0].health), 10.0);
}

#[test]
fn containers_round_trip_exactly() {
    let data = populated();
    let back = load_from_bytes(&save_to_bytes(&data)).unwrap();
    assert_eq!(back.containers.len(), 3);
    assert_eq!(back.containers, data.containers);

    let furnace = back.container((5, 70, 6)).expect("the busy furnace");
    assert_eq!(furnace.kind, ContainerKind(CONTAINER_FURNACE));
    assert_eq!(furnace.slot(FURNACE_INPUT), Some(ItemStack::new(i(item::RAW_IRON), 5)));
    assert_eq!(furnace.slot(FURNACE_FUEL), Some(ItemStack::new(i(item::COAL), 3)));
    assert_eq!(furnace.slot(FURNACE_OUTPUT), Some(ItemStack::new(i(item::IRON_INGOT), 2)));

    let chest = back.container((200, 250, -201)).expect("the chest");
    assert_eq!(chest.kind, ContainerKind(CONTAINER_CHEST));
    assert_eq!(chest.slots.len(), 27);
    assert_eq!(chest.slot(0), Some(ItemStack::new(i(item::DIRT), 64)));
    assert_eq!(chest.slot(25), None);
    assert_eq!(chest.slot(26).unwrap().durability, 12);
    assert!(chest.fields.is_empty(), "a chest needs no numbers");
}

#[test]
fn a_furnace_record_reloads_with_its_burn_and_progress() {
    let (burn_left, burn_total, progress) = (75.0f32, 80.0f32, 6.0f32);
    let mut data = SaveData::new(9);
    data.set_container(
        (8, 63, -4),
        ContainerSave::furnace(
            Some(ItemStack::new(i(item::RAW_IRON), 2)),
            Some(ItemStack::new(i(item::COAL), 2)),
            None,
            f(burn_left),
            f(burn_total),
            f(progress),
        ),
    );
    let back = load_from_bytes(&save_to_bytes(&data)).unwrap();
    let c = back.container((8, 63, -4)).expect("the furnace survived");
    assert_eq!(c.slot(FURNACE_INPUT), Some(ItemStack::new(i(item::RAW_IRON), 2)));
    assert_eq!(c.slot(FURNACE_FUEL), Some(ItemStack::new(i(item::COAL), 2)));
    assert_eq!(c.slot(FURNACE_OUTPUT), None);
    assert_eq!(f32::from_bits(c.burn_left()), burn_left);
    assert_eq!(f32::from_bits(c.burn_total()), burn_total);
    assert_eq!(f32::from_bits(c.progress()), progress);
}

#[test]
fn a_container_kind_this_build_does_not_know_still_survives() {
    let mut odd = ContainerSave::new(ContainerKind(4321), 5, 2);
    odd.slots[3] = Some(ItemStack::new(i(item::GOLD_ORE), 7));
    odd.fields[1] = f(-12.5);

    let mut data = SaveData::new(1);
    data.set_container((-9, 200, 9), odd.clone());
    let back = load_from_bytes(&save_to_bytes(&data)).unwrap();
    assert_eq!(back.container((-9, 200, 9)), Some(&odd));
}

#[test]
fn an_empty_container_is_not_worth_a_record() {
    let mut data = SaveData::new(1);
    data.set_container((1, 2, 3), ContainerSave::new(ContainerKind(CONTAINER_FURNACE), 3, 3));
    assert!(data.containers.is_empty(), "an idle empty furnace is not state");

    data.set_container((1, 2, 3), ContainerSave::furnace(None, None, None, f(4.0), f(80.0), f(0.0)));
    assert_eq!(data.containers.len(), 1);

    data.set_container((1, 2, 3), ContainerSave::new(ContainerKind(CONTAINER_FURNACE), 3, 3));
    assert!(data.containers.is_empty());
}

#[test]
fn impossible_container_data_is_rejected() {
    let mut data = SaveData::new(1);
    let container = ContainerSave::furnace(
        Some(ItemStack::new(i(item::RAW_IRON), 1)),
        None,
        None,
        f(1.0),
        f(2.0),
        f(3.0),
    );
    data.set_container((1, 2, 3), container);

    let empty = save_to_bytes(&SaveData::new(1));
    let bytes = save_to_bytes(&data);
    let count_at = empty.len() - 4;
    let record = bytes[empty.len()..].to_vec();
    let slot_count_at = empty.len() + 12 + 2;

    let mut dup = bytes.clone();
    dup[count_at..count_at + 4].copy_from_slice(&2u32.to_le_bytes());
    dup.extend_from_slice(&record);
    assert!(matches!(load_from_bytes(&dup), Err(SaveError::Corrupt("two containers at one block"))));

    let mut wide = bytes.clone();
    wide[slot_count_at] = 200;
    assert!(matches!(load_from_bytes(&wide), Err(SaveError::Corrupt("container has more slots than possible"))));

    let mut over = bytes.clone();
    over[slot_count_at] = 0;
    assert!(matches!(load_from_bytes(&over), Err(SaveError::Corrupt("more filled slots than the container has"))));

    let mut stray = bytes.clone();
    stray[slot_count_at + 2] = 9;
    assert!(matches!(load_from_bytes(&stray), Err(SaveError::Corrupt("container slot index out of range"))));

    let mut ghost = bytes.clone();
    ghost[slot_count_at + 3..slot_count_at + 5].copy_from_slice(&4242u16.to_le_bytes());
    assert!(matches!(load_from_bytes(&ghost), Err(SaveError::Corrupt("unknown item id"))));
}

#[test]
fn an_untouched_world_still_saves_in_a_few_dozen_bytes() {
    let bytes = save_to_bytes(&SaveData::new(1337));
    assert!(bytes.len() <= 64, "an untouched world saved {} bytes", bytes.len());
    assert_eq!(bytes.len(), 53);
    assert_eq!(&bytes[bytes.len() - 8..], &[0u8; 8], "two empty sections");
    let back = load_from_bytes(&bytes).unwrap();
    assert!(back.mobs.is_empty() && back.containers.is_empty());
}

#[test]
fn mask_layout_matches_the_engine() {
    let mut m = FULL_MASK;
    mask_clear(&mut m, 0, 0, 0);
    assert_eq!(m[0], 0xFE);
    let mut m = FULL_MASK;
    mask_clear(&mut m, 7, 7, 7);
    assert_eq!(m[63], 0x7F);
    let mut m = FULL_MASK;
    mask_clear(&mut m, 0, 1, 0);
    assert_eq!(m[8], 0xFE, "y stride is 64 bits");
    let mut m = FULL_MASK;
    mask_clear(&mut m, 0, 0, 1);
    assert_eq!(m[1], 0xFE, "z stride is 8 bits");
}

#[test]
fn non_finite_floats_are_refused() {
    let mut data = SaveData::new(5);
    data.player.yaw = f32::NAN.to_bits();
    let bytes = save_to_bytes(&data);
    assert!(matches!(load_from_bytes(&bytes), Err(SaveError::Corrupt("non-finite float"))));
}

#[test]
fn a_short_file_reports_what_it_needed() {
    assert_eq!(load_from_bytes(&[]).unwrap_err(), SaveError::Truncated { needed: 4, available: 0 });
    let mut bytes = MAGIC.to_vec();
    bytes.push(2);
    assert_eq!(load_from_bytes(&bytes).unwrap_err(), SaveError::Truncated { needed: 4, available: 1 });
}

#[test]
fn error_messages_name_what_went_wrong() {
    assert_eq!(SaveError::Corrupt("empty carve mask").message(), "corrupt save file: empty carve mask");
    assert_eq!(
        SaveError::Truncated { needed: 64, available: 10 }.message(),
        "save file ends early: needed 64 more bytes, 10 remain"
    );
    assert_eq!(
        SaveError::UnsupportedVersion { found: 0, supported: 2 }.message(),
        "save format version 0 is not supported by this build (which reads versions 1 to 2)"
    );
    assert_eq!(
        SaveError::BadMagic(*b"XXXX").message(),
        "not a Loudstone save: expected magic \"LDST\", found \"XXXX\""
    );
}

#[test]
fn edit_ops_put_blocks_before_masks() {
    let mut t = ChangeTracker::new();
    t.note_carve(2, 3, 4, 0, 0, 0);
    t.note_set_block(1, 1, 1, b(block::STONE));
    let ops = t.edit_ops((0, 0, 0));
    assert_eq!(ops.len(), 2);
    assert!(matches!(ops[0], EditOp::SetBlock { x: 1, y: 1, z: 1, .. }));
    assert!(matches!(ops[1], EditOp::SetMask { x: 2, y: 3, z: 4, .. }));
    assert!(t.edit_ops((1, 0, 0)).is_empty());
}

/// A one-chunk world that records its edits in a tracker as it makes them,
/// the way the game's tracked world adapter does for mob-driven changes.
struct TrackedChunk {
    chunk: loudstone::chunk::Chunk,
    edits: ChangeTracker,
}

impl TrackedChunk {
    fn carve(&mut self, x: i32, y: i32, z: i32, sx: usize, sy: usize, sz: usize) -> bool {
        let (lx, ly, lz) = (x as usize, (y - 64) as usize, z as usize);
        let changed = !self.chunk.get(lx, ly, lz).is_air()
            && self.chunk.mask(lx, ly, lz).map_or(true, |m| m.get(sx, sy, sz));
        let destroyed = self.chunk.carve(lx, ly, lz, sx, sy, sz);
        if changed {
            self.edits.note_carve(x, y, z, sx, sy, sz);
        }
        destroyed
    }

    fn set_block(&mut self, x: i32, y: i32, z: i32, id: BlockId) {
        self.chunk.set(x as usize, (y - 64) as usize, z as usize, id);
        self.edits.note_set_block(x, y, z, id);
    }
}

#[test]
fn mob_world_mutations_are_written_to_the_durable_edit_log() {
    let mut world = TrackedChunk { chunk: Chunk::new(ChunkPos::new(0, 4, 0)), edits: ChangeTracker::new() };
    world.chunk.set(1, 1, 1, b(block::STONE));
    world.carve(1, 65, 1, 0, 0, 0);
    world.set_block(2, 65, 1, b(block::AIR));
    assert!(world.edits.mask_at(1, 65, 1).is_some());
    assert_eq!(world.edits.block_at(2, 65, 1), Some(b(block::AIR)));
}
