use loudstone::audio::{
    actions, material_slot, materials, oneshot_slot, oneshots, Material, Sound, COOLDOWN_SLOTS,
    TOTAL_SLOTS, VARIANTS,
};
use loudstone::block::{self, BlockId};

#[test]
fn the_material_mapping_is_the_one_we_meant() {
    let m = |n: u8| Material::of(BlockId(n));
    assert_eq!(m(block::STONE), Material::Stone);
    assert_eq!(m(block::COBBLESTONE), Material::Stone);
    assert_eq!(m(block::GRANITE), Material::Stone);
    assert_eq!(m(block::DIRT), Material::Dirt);
    assert_eq!(m(block::GRASS), Material::Dirt);
    assert_eq!(m(block::GRASS_SWAMP), Material::Dirt);
    assert_eq!(m(block::PODZOL), Material::Dirt);
    assert_eq!(m(block::SAND), Material::Sand);
    assert_eq!(m(block::GRAVEL), Material::Gravel);
    assert_eq!(m(block::SNOW), Material::Snow);
    assert_eq!(m(block::WOOD), Material::Wood);
    assert_eq!(m(block::PLANKS), Material::Wood);
    assert_eq!(m(block::SPRUCE_LOG), Material::Wood);
    assert_eq!(m(block::CRAFTING_TABLE), Material::Wood);
    assert_eq!(m(block::LEAVES), Material::Leaves);
    assert_eq!(m(block::BIRCH_LEAVES), Material::Leaves);
    assert_eq!(m(block::TALL_GRASS), Material::Leaves);
    assert_eq!(m(block::IRON_ORE), Material::Metal);
    assert_eq!(m(block::COAL_ORE), Material::Metal);
    assert_eq!(m(block::DIAMOND_ORE), Material::Crystal);
    assert_eq!(m(block::ICE), Material::Crystal);
    assert_eq!(m(block::WATER), Material::Liquid);
    assert_eq!(Material::of(BlockId(200)), Material::Stone);
}

#[test]
fn every_slot_is_reachable_from_some_sound() {
    let mut hit = [false; TOTAL_SLOTS];
    for m in materials() {
        for a in actions() {
            for v in 0..VARIANTS {
                hit[material_slot(m, a, v)] = true;
            }
        }
    }
    for (i, _) in oneshots().iter().enumerate() {
        for v in 0..VARIANTS {
            hit[oneshot_slot(i, v)] = true;
        }
    }
    assert!(hit.iter().all(|&h| h), "some bank slots are unreachable");
}

#[test]
fn one_shots_land_on_their_own_slots() {
    for (i, s) in oneshots().iter().enumerate() {
        assert_eq!(s.slot_base(), oneshot_slot(i, 0), "{s:?} is misfiled");
    }
    let mut seen = [false; COOLDOWN_SLOTS];
    let mut all: Vec<Sound> = oneshots().to_vec();
    let stone = BlockId(block::STONE);
    all.extend([Sound::Dig(stone), Sound::Break(stone), Sound::Place(stone), Sound::Footstep(stone)]);
    for s in all {
        let slot = s.cooldown_slot();
        assert!(!seen[slot], "{s:?} shares a cooldown slot");
        seen[slot] = true;
    }
}

#[test]
fn material_slots_follow_the_bank_layout() {
    assert_eq!(material_slot(Material::Stone, actions()[0], 0), 0);
    assert_eq!(material_slot(Material::Dirt, actions()[0], 0), 12);
    assert_eq!(material_slot(Material::Stone, actions()[1], 2), 5);
    assert_eq!(oneshot_slot(0, 0), 120);
    assert_eq!(Sound::Dig(BlockId(block::SAND)).slot_base(), material_slot(Material::Sand, actions()[0], 0));
}
