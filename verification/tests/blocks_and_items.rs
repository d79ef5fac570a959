use loudstone::block::{self, BlockId};
use loudstone::item::{self, can_harvest, mining_drop, ItemId};

#[test]
fn frozen_ids_keep_their_numbers() {
    let frozen = [
        (BlockId(block::AIR), 0),
        (BlockId(block::STONE), 1),
        (BlockId(block::DIRT), 2),
        (BlockId(block::GRASS), 3),
        (BlockId(block::SAND), 4),
        (BlockId(block::WOOD), 5),
        (BlockId(block::LEAVES), 6),
        (BlockId(block::PLANKS), 7),
        (BlockId(block::COBBLESTONE), 8),
        (BlockId(block::COAL_ORE), 9),
        (BlockId(block::IRON_ORE), 10),
        (BlockId(block::GOLD_ORE), 11),
        (BlockId(block::DIAMOND_ORE), 12),
        (BlockId(block::BEDROCK), 13),
        (BlockId(block::WATER), 14),
        (BlockId(block::TORCH), 15),
        (BlockId(block::CRAFTING_TABLE), 16),
        (BlockId(block::FURNACE), 17),
    ];
    for (id, n) in frozen {
        assert_eq!(id.0, n, "block id {id:?} moved off its frozen number");
    }
}

#[test]
fn plants_are_neither_solid_nor_opaque() {
    for id in [
        BlockId(block::TALL_GRASS),
        BlockId(block::FLOWER_RED),
        BlockId(block::FLOWER_YELLOW),
        BlockId(block::DEAD_BUSH),
    ] {
        assert!(!id.is_solid(), "{id:?} would block the player");
        assert!(!id.is_opaque(), "{id:?} would cull the face under it");
    }
}

#[test]
fn leaves_do_not_cull_but_do_collide() {
    for id in [
        BlockId(block::LEAVES),
        BlockId(block::BIRCH_LEAVES),
        BlockId(block::SPRUCE_LEAVES),
    ] {
        assert!(id.is_leaves());
        assert!(!id.is_opaque());
        assert!(id.is_solid(), "leaves are still something to stand on");
    }
}

#[test]
fn solid_worldgen_blocks_are_opaque_and_solid() {
    for id in [
        BlockId(block::SANDSTONE),
        BlockId(block::GRAVEL),
        BlockId(block::CLAY),
        BlockId(block::SNOW),
        BlockId(block::ICE),
        BlockId(block::GRANITE),
        BlockId(block::DIORITE),
        BlockId(block::ANDESITE),
        BlockId(block::CACTUS),
        BlockId(block::PODZOL),
        BlockId(block::GRASS_COLD),
        BlockId(block::GRASS_DRY),
        BlockId(block::GRASS_SWAMP),
    ] {
        assert!(id.is_opaque(), "{id:?} should occlude");
        assert!(id.is_solid(), "{id:?} should be walked on, not through");
    }
}

#[test]
fn grass_family_and_logs_are_recognised() {
    assert!(BlockId(block::GRASS).is_grassy());
    assert!(BlockId(block::GRASS_SWAMP).is_grassy());
    assert!(BlockId(block::PODZOL).is_grassy());
    assert!(!BlockId(block::SAND).is_grassy());
    assert!(BlockId(block::WOOD).is_log());
    assert!(BlockId(block::SPRUCE_LOG).is_log());
    assert!(!BlockId(block::PLANKS).is_log());
}

#[test]
fn a_block_can_be_placed_into_water_and_ground_cover() {
    assert!(BlockId(block::WATER).is_replaceable());
    assert!(BlockId(block::TALL_GRASS).is_replaceable());
    assert!(BlockId(block::AIR).is_replaceable());
    assert!(!BlockId(block::STONE).is_replaceable());
    assert!(!BlockId(block::DIRT).is_replaceable());
    assert!(!BlockId(block::LEAVES).is_replaceable());
}

#[test]
fn block_items_share_block_numbering() {
    for item in ItemId::all() {
        if let Some(block) = item.places() {
            assert_eq!(item.0, block.0 as u16, "{} broke the numbering rule", item.name());
            assert_eq!(ItemId::from_block(block), Some(item));
        }
    }
}

#[test]
fn non_block_items_do_not_place() {
    for item in [
        ItemId(item::STICK),
        ItemId(item::COAL),
        ItemId(item::RAW_IRON),
        ItemId(item::IRON_INGOT),
        ItemId(item::IRON_PICKAXE),
    ] {
        assert_eq!(item.places(), None);
    }
    assert_eq!(ItemId::from_block(BlockId(block::AIR)), None);
    assert_eq!(ItemId::from_block(BlockId(block::BEDROCK)), None);
    assert_eq!(ItemId::from_block(BlockId(block::WATER)), None);
}

#[test]
fn tool_roundtrip() {
    for item in ItemId::all() {
        if let Some((kind, tier)) = item.tool() {
            assert_eq!(ItemId::tool_item(kind, tier), item);
            assert_eq!(item.max_stack(), 1);
            assert_eq!(item.max_durability(), tier.durability());
        } else {
            assert_eq!(item.max_stack(), 64);
            assert_eq!(item.max_durability(), 0);
        }
    }
}

#[test]
fn stone_drops_cobblestone_only_with_a_pickaxe() {
    let stone = BlockId(block::STONE);
    assert!(!can_harvest(None, stone));
    assert!(!can_harvest(Some(ItemId(item::WOODEN_AXE)), stone));
    assert!(!can_harvest(Some(ItemId(item::IRON_SWORD)), stone));
    assert!(can_harvest(Some(ItemId(item::WOODEN_PICKAXE)), stone));
    assert_eq!(
        mining_drop(Some(ItemId(item::WOODEN_PICKAXE)), stone),
        Some(ItemId(item::COBBLESTONE))
    );
    assert_eq!(mining_drop(None, stone), None);
}

#[test]
fn iron_needs_stone_tier() {
    let ore = BlockId(block::IRON_ORE);
    assert!(!can_harvest(Some(ItemId(item::WOODEN_PICKAXE)), ore));
    assert!(can_harvest(Some(ItemId(item::STONE_PICKAXE)), ore));
    assert!(can_harvest(Some(ItemId(item::IRON_PICKAXE)), ore));
    assert_eq!(
        mining_drop(Some(ItemId(item::STONE_PICKAXE)), ore),
        Some(ItemId(item::RAW_IRON))
    );
}

#[test]
fn diamond_and_gold_need_iron_tier() {
    for ore in [BlockId(block::DIAMOND_ORE), BlockId(block::GOLD_ORE)] {
        assert!(!can_harvest(Some(ItemId(item::WOODEN_PICKAXE)), ore));
        assert!(!can_harvest(Some(ItemId(item::STONE_PICKAXE)), ore));
        assert!(can_harvest(Some(ItemId(item::IRON_PICKAXE)), ore));
        assert_eq!(mining_drop(Some(ItemId(item::IRON_PICKAXE)), ore), ItemId::from_block(ore));
    }
}

#[test]
fn coal_ore_drops_coal_with_any_pickaxe() {
    assert_eq!(
        mining_drop(Some(ItemId(item::WOODEN_PICKAXE)), BlockId(block::COAL_ORE)),
        Some(ItemId(item::COAL))
    );
    assert_eq!(mining_drop(None, BlockId(block::COAL_ORE)), None);
}

#[test]
fn soft_blocks_drop_bare_handed() {
    assert_eq!(mining_drop(None, BlockId(block::DIRT)), Some(ItemId(item::DIRT)));
    assert_eq!(mining_drop(None, BlockId(block::GRASS)), Some(ItemId(item::DIRT)));
    assert_eq!(mining_drop(None, BlockId(block::WOOD)), Some(ItemId(item::WOOD)));
    assert_eq!(mining_drop(None, BlockId(block::SAND)), Some(ItemId(item::SAND)));
    assert_eq!(mining_drop(None, BlockId(block::LEAVES)), None);
}

#[test]
fn bedrock_and_fluids_are_never_harvestable() {
    for block in [BlockId(block::BEDROCK), BlockId(block::AIR), BlockId(block::WATER)] {
        assert!(!can_harvest(None, block));
        assert!(!can_harvest(Some(ItemId(item::IRON_PICKAXE)), block));
        assert_eq!(mining_drop(Some(ItemId(item::IRON_PICKAXE)), block), None);
    }
}

#[test]
fn item_names_round_trip_through_data_names() {
    for item in ItemId::all() {
        assert_eq!(ItemId::from_name(item.data_name()), Some(item));
    }
    assert_eq!(ItemId::from_name("no_such_item"), None);
}
