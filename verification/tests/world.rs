use loudstone::block::{self, BlockId};
use loudstone::camera::FlyInput;
use loudstone::chunk::{Chunk, ChunkPos, SubMask};
use loudstone::gauntlet::{act_for_roll, weight_table, Act, WEIGHT_TOTAL};
use loudstone::audio::Rng;
use loudstone::cli::{has_flag, value_after, RunModes};
use loudstone::mesh::{
    chunk_offset, face_visible, neighbor_index, FACE_CORNERS, FACE_NORMALS, NEIGHBOR_COUNT,
};
use loudstone::mob::MobKind;

fn cross(a: [i32; 3], b: [i32; 3]) -> [i32; 3] {
    [a[1] * b[2] - a[2] * b[1], a[2] * b[0] - a[0] * b[2], a[0] * b[1] - a[1] * b[0]]
}

#[test]
fn every_face_is_wound_counter_clockwise_from_outside() {
    for (f, n) in FACE_NORMALS.iter().enumerate() {
        let c = FACE_CORNERS[f];
        let e1 = [c[1][0] - c[0][0], c[1][1] - c[0][1], c[1][2] - c[0][2]];
        let e2 = [c[2][0] - c[0][0], c[2][1] - c[0][1], c[2][2] - c[0][2]];
        let k = cross(e1, e2);
        let dot = k[0] * n[0] + k[1] * n[1] + k[2] * n[2];
        assert!(dot > 0, "face {f} (normal {n:?}) is wound backwards: cross = {k:?}");
        let e3 = [c[2][0] - c[0][0], c[2][1] - c[0][1], c[2][2] - c[0][2]];
        let e4 = [c[3][0] - c[0][0], c[3][1] - c[0][1], c[3][2] - c[0][2]];
        let k2 = cross(e3, e4);
        let dot2 = k2[0] * n[0] + k2[1] * n[1] + k2[2] * n[2];
        assert!(dot2 > 0, "face {f} second triangle is wound backwards");
    }
}

#[test]
fn neighbor_indices_cover_the_block_of_chunks_once() {
    let mut seen = [false; NEIGHBOR_COUNT];
    for dy in -1..=1 {
        for dz in -1..=1 {
            for dx in -1..=1 {
                let i = neighbor_index(dx, dy, dz);
                assert!(!seen[i]);
                seen[i] = true;
            }
        }
    }
    assert!(seen.iter().all(|&s| s));
    assert_eq!(neighbor_index(0, 0, 0), 13);
}

#[test]
fn rolls_pick_acts_by_weight() {
    let table = weight_table();
    assert_eq!(table.iter().map(|(_, w)| w).sum::<u32>(), WEIGHT_TOTAL);
    let mut counts = std::collections::HashMap::new();
    for roll in 0..WEIGHT_TOTAL {
        *counts.entry(act_for_roll(roll)).or_insert(0u32) += 1;
    }
    for (act, w) in table {
        assert_eq!(counts[&act], w, "{act:?} is picked by the wrong number of rolls");
    }
    assert_eq!(act_for_roll(0), Act::Walk);
    assert_eq!(act_for_roll(22), Act::Sprint);
    assert_eq!(act_for_roll(WEIGHT_TOTAL - 1), Act::SaveCheck);
    assert_eq!(act_for_roll(WEIGHT_TOTAL), Act::Walk);
}

#[test]
fn fly_keys_cancel_and_combine() {
    let mut input = FlyInput::default();
    assert_eq!(input.axes(), (0, 0, 0));
    assert!(!input.moves());
    input.fwd = true;
    input.left = true;
    input.up = true;
    assert_eq!(input.axes(), (1, -1, 1));
    assert!(input.moves());
    input.back = true;
    input.right = true;
    input.down = true;
    assert_eq!(input.axes(), (0, 0, 0));
    assert!(!input.moves());
}

#[test]
fn carving_the_last_sub_voxel_turns_a_block_to_air() {
    let mut chunk = Chunk::new(ChunkPos::new(0, 0, 0));
    chunk.set(3, 4, 5, BlockId(block::STONE));
    let mut destroyed = false;
    for sy in 0..8 {
        for sz in 0..8 {
            for sx in 0..8 {
                destroyed = chunk.carve(3, 4, 5, sx, sy, sz);
            }
        }
    }
    assert!(destroyed);
    assert!(chunk.get(3, 4, 5).is_air());
    assert!(chunk.mask(3, 4, 5).is_none());
    assert!(!chunk.carve(3, 4, 5, 0, 0, 0), "carving air does nothing");
}

#[test]
fn a_chipped_block_keeps_its_other_sub_voxels() {
    let mut chunk = Chunk::new(ChunkPos::new(1, 2, 3));
    chunk.set(0, 0, 0, BlockId(block::DIRT));
    assert!(!chunk.carve(0, 0, 0, 2, 3, 4));
    let mask = chunk.mask(0, 0, 0).unwrap();
    assert!(!mask.get(2, 3, 4));
    assert!(mask.get(3, 3, 4));
    assert!(chunk.has_damage());
    chunk.set(0, 0, 0, BlockId(block::STONE));
    assert!(!chunk.has_damage(), "changing the block resets its carving");
    let mut m = SubMask::full();
    assert!(m.is_full());
    m.clear(0, 0, 0);
    assert!(!m.is_full() && !m.is_empty());
    assert_eq!(ChunkPos::new(1, -2, 3).origin(), (16, -32, 48));
}

#[test]
fn mob_kinds_know_their_health_and_temper() {
    assert_eq!(f32::from_bits(MobKind::Zombie.max_health_bits()), 20.0);
    assert_eq!(f32::from_bits(MobKind::Skeleton.max_health_bits()), 16.0);
    assert_eq!(f32::from_bits(MobKind::Creeper.max_health_bits()), 16.0);
    assert_eq!(f32::from_bits(MobKind::Pig.max_health_bits()), 10.0);
    assert!(!MobKind::Pig.is_hostile());
    assert!(MobKind::hostiles().iter().all(|k| k.is_hostile()));
    assert_eq!(MobKind::all().len(), 4);
}

#[test]
fn every_capture_mode_counts_as_automated() {
    let modes: [(&str, fn(&mut RunModes)); 8] = [
        ("shot", |c| c.shot = true),
        ("vista", |c| c.vista = true),
        ("demo", |c| c.demo = true),
        ("models", |c| c.models_review = true),
        ("ui", |c| c.ui_demo = true),
        ("model", |c| c.model_demo = true),
        ("gauntlet", |c| c.gauntlet = true),
        ("map", |c| c.map = true),
    ];
    for (name, set) in modes {
        let mut cli = RunModes::default();
        set(&mut cli);
        assert!(cli.automated(), "--{name} should skip the title screen");
    }
    assert!(!RunModes::default().automated(), "a plain run shows the menu");
}

#[test]
fn an_explicit_title_flag_beats_every_capture_mode() {
    let mut cli = RunModes::default();
    cli.models_review = true;
    cli.force_title = true;
    assert!(!cli.automated());
}

#[test]
fn flags_and_values_come_from_the_argument_list() {
    let args: Vec<String> = ["loudstone", "--gauntlet", "--seed", "7", "--secs"].iter().map(|s| s.to_string()).collect();
    assert!(has_flag(&args, "--gauntlet"));
    assert!(!has_flag(&args, "--vista"));
    assert_eq!(value_after(&args, "--seed"), Some("7".to_string()));
    assert_eq!(value_after(&args, "--secs"), None, "a trailing flag has no value");
    assert_eq!(value_after(&args, "--map"), None);
}

#[test]
fn xorshift_matches_its_definition_and_never_stalls() {
    let mut r = Rng::new(0);
    assert_eq!(r.0, 1);
    let first = r.next_u32();
    let mut x = 1u32;
    x ^= x << 13;
    x ^= x >> 17;
    x ^= x << 5;
    assert_eq!(first, x);
    for _ in 0..1000 {
        assert_ne!(r.next_u32(), 0);
    }
}

#[test]
fn padded_coordinates_pick_the_right_neighbour() {
    assert_eq!(chunk_offset(-1), -1);
    assert_eq!(chunk_offset(0), 0);
    assert_eq!(chunk_offset(15), 0);
    assert_eq!(chunk_offset(16), 1);
}

fn faces_drawn(id: u8, neighbours: [(u8, bool); 6]) -> usize {
    neighbours
        .iter()
        .filter(|&&(n, damaged)| face_visible(BlockId(id), BlockId(n), damaged))
        .count()
}

#[test]
fn an_isolated_block_draws_all_six_faces_and_an_enclosed_one_none() {
    assert_eq!(faces_drawn(block::STONE, [(block::AIR, false); 6]), 6);
    assert_eq!(faces_drawn(block::STONE, [(block::STONE, false); 6]), 0);
    // A chipped neighbour no longer hides anything.
    assert_eq!(faces_drawn(block::STONE, [(block::STONE, true); 6]), 6);
    // See-through neighbours hide nothing.
    assert_eq!(faces_drawn(block::STONE, [(block::LEAVES, false); 6]), 6);
}

#[test]
fn a_see_through_mass_draws_only_its_outside() {
    // Leaves inside a canopy and water inside a lake share hidden faces.
    assert!(!face_visible(BlockId(block::LEAVES), BlockId(block::LEAVES), false));
    assert!(!face_visible(BlockId(block::WATER), BlockId(block::WATER), false));
    // Different see-through blocks still show each other.
    assert!(face_visible(BlockId(block::LEAVES), BlockId(block::BIRCH_LEAVES), false));
    assert!(face_visible(BlockId(block::WATER), BlockId(block::AIR), false));
    // Two opaque blocks of one kind are culled by opacity, not by kind.
    assert!(!face_visible(BlockId(block::DIRT), BlockId(block::DIRT), false));
    assert!(face_visible(BlockId(block::DIRT), BlockId(block::DIRT), true));
}

#[test]
fn the_damage_layer_holds_only_partly_carved_solid_blocks() {
    let mut c = Chunk::new(ChunkPos { x: 0, y: 0, z: 0 });
    assert!(!c.has_damage());
    // Carving air stores nothing.
    assert!(!c.carve(1, 1, 1, 0, 0, 0));
    assert!(!c.has_damage());
    c.set(1, 1, 1, BlockId(block::STONE));
    c.carve(1, 1, 1, 0, 0, 0);
    assert!(c.has_damage());
    for (&i, m) in c.damage_map() {
        assert!((i as usize) < 4096 && !m.is_empty());
        assert!(!c.blocks()[i as usize].is_air());
    }
    // Setting the block again drops its mask.
    c.set(1, 1, 1, BlockId(block::DIRT));
    assert!(!c.has_damage());
}
