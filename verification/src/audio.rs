//! Which sound a game event makes: the material family of each block and the
//! layout of the rendered sound bank.
//!
//! The bank holds, per material, four actions of three variants each, then
//! three variants of every one-shot sound. A slot number is all the game and
//! the audio thread have to agree on.
use vstd::prelude::*;
use crate::block::{
    BlockId, CACTUS, CLAY, COAL_ORE, CRAFTING_TABLE, DEAD_BUSH, DIAMOND_ORE, DIRT,
    FLOWER_RED, FLOWER_YELLOW, GOLD_ORE, GRAVEL, ICE, IRON_ORE, PLANKS, PODZOL, SAND, SNOW,
    SPRUCE_LOG, BIRCH_LOG, TALL_GRASS, TORCH, WATER, WOOD, GRASS, GRASS_COLD, GRASS_DRY,
    GRASS_SWAMP, LEAVES, BIRCH_LEAVES, SPRUCE_LEAVES,
};

verus! {

/// Pitch variants rendered per sound.
pub const VARIANTS: usize = 3;
/// Slots taken by the material-keyed sounds: 10 materials x 4 actions x 3.
pub const MATERIAL_SLOTS: usize = 120;
/// Every slot in the bank: the material sounds plus 9 one-shots x 3.
pub const TOTAL_SLOTS: usize = 147;
/// One cooldown per sound kind, ignoring material.
pub const COOLDOWN_SLOTS: usize = 13;

/// Everything the game can ask to hear. Material-keyed variants take the
/// block that was hit.
#[derive(Copy, Clone, Debug, PartialEq, Eq, Structural)]
pub enum Sound {
    Dig(BlockId),
    Break(BlockId),
    Place(BlockId),
    Footstep(BlockId),
    PlayerHurt,
    MobHurt,
    MobDeath,
    CreeperFuse,
    Explosion,
    BowShot,
    ArrowHit,
    CaveDrip,
    Wind,
}

/// The sound family a block belongs to.
#[derive(Copy, Clone, Debug, PartialEq, Eq, Structural)]
pub enum Material {
    Stone,
    Dirt,
    Sand,
    Gravel,
    Snow,
    Wood,
    Leaves,
    Metal,
    Crystal,
    Liquid,
}

/// The four material-keyed actions, in bank order.
#[derive(Copy, Clone, Debug, PartialEq, Eq, Structural)]
pub enum Action {
    Dig,
    Break,
    Place,
    Step,
}

/// The sound family of each block number. Anything unrecognised sounds like
/// stone.
pub open spec fn material_of(n: u8) -> Material {
    if n == DIRT || n == CLAY || n == PODZOL || n == GRASS || n == GRASS_COLD || n == GRASS_DRY
        || n == GRASS_SWAMP {
        Material::Dirt
    } else if n == SAND {
        Material::Sand
    } else if n == GRAVEL {
        Material::Gravel
    } else if n == SNOW {
        Material::Snow
    } else if n == WOOD || n == PLANKS || n == BIRCH_LOG || n == SPRUCE_LOG || n == CRAFTING_TABLE
        || n == TORCH || n == CACTUS {
        Material::Wood
    } else if n == TALL_GRASS || n == FLOWER_RED || n == FLOWER_YELLOW || n == DEAD_BUSH || n
        == LEAVES || n == BIRCH_LEAVES || n == SPRUCE_LEAVES {
        Material::Leaves
    } else if n == COAL_ORE || n == IRON_ORE || n == GOLD_ORE {
        Material::Metal
    } else if n == DIAMOND_ORE || n == ICE {
        Material::Crystal
    } else if n == WATER {
        Material::Liquid
    } else {
        Material::Stone
    }
}

/// Bank order of a material.
pub open spec fn material_index(m: Material) -> int {
    match m {
        Material::Stone => 0,
        Material::Dirt => 1,
        Material::Sand => 2,
        Material::Gravel => 3,
        Material::Snow => 4,
        Material::Wood => 5,
        Material::Leaves => 6,
        Material::Metal => 7,
        Material::Crystal => 8,
        Material::Liquid => 9,
    }
}

/// Bank order of an action.
pub open spec fn action_index(a: Action) -> int {
    match a {
        Action::Dig => 0,
        Action::Break => 1,
        Action::Place => 2,
        Action::Step => 3,
    }
}

/// Slot of a material sound: material-major, then action, then variant.
pub open spec fn material_slot_spec(m: Material, a: Action, variant: int) -> int {
    (material_index(m) * 4 + action_index(a)) * 3 + variant
}

/// Slot of a one-shot sound, after all the material sounds.
pub open spec fn oneshot_slot_spec(which: int, variant: int) -> int {
    120 + which * 3 + variant
}

/// Position of a one-shot in bank order; material sounds have none.
pub open spec fn oneshot_index(s: Sound) -> int {
    match s {
        Sound::PlayerHurt => 0,
        Sound::MobHurt => 1,
        Sound::MobDeath => 2,
        Sound::CreeperFuse => 3,
        Sound::Explosion => 4,
        Sound::BowShot => 5,
        Sound::ArrowHit => 6,
        Sound::CaveDrip => 7,
        Sound::Wind => 8,
        _ => 0,
    }
}

/// First bank slot of a sound.
pub open spec fn slot_base_spec(s: Sound) -> int {
    match s {
        Sound::Dig(b) => material_slot_spec(material_of(b.0), Action::Dig, 0),
        Sound::Break(b) => material_slot_spec(material_of(b.0), Action::Break, 0),
        Sound::Place(b) => material_slot_spec(material_of(b.0), Action::Place, 0),
        Sound::Footstep(b) => material_slot_spec(material_of(b.0), Action::Step, 0),
        other => oneshot_slot_spec(oneshot_index(other), 0),
    }
}

/// The cooldown slot of a sound kind.
pub open spec fn cooldown_slot_spec(s: Sound) -> int {
    match s {
        Sound::Dig(_) => 0,
        Sound::Break(_) => 1,
        Sound::Place(_) => 2,
        Sound::Footstep(_) => 3,
        Sound::PlayerHurt => 4,
        Sound::MobHurt => 5,
        Sound::MobDeath => 6,
        Sound::CreeperFuse => 7,
        Sound::Explosion => 8,
        Sound::BowShot => 9,
        Sound::ArrowHit => 10,
        Sound::CaveDrip => 11,
        Sound::Wind => 12,
    }
}

impl Material {
    /// Which family a block sounds like.
    pub fn of(block: BlockId) -> (r: Material)
        ensures
            r == material_of(block.0),
    {
        let n = block.0;
        if n == DIRT || n == CLAY || n == PODZOL || block.is_grassy() {
            Material::Dirt
        } else if n == SAND {
            Material::Sand
        } else if n == GRAVEL {
            Material::Gravel
        } else if n == SNOW {
            Material::Snow
        } else if n == WOOD || n == PLANKS || n == BIRCH_LOG || n == SPRUCE_LOG || n
            == CRAFTING_TABLE || n == TORCH || n == CACTUS {
            Material::Wood
        } else if n == TALL_GRASS || n == FLOWER_RED || n == FLOWER_YELLOW || n == DEAD_BUSH
            || block.is_leaves() {
            Material::Leaves
        } else if n == COAL_ORE || n == IRON_ORE || n == GOLD_ORE {
            Material::Metal
        } else if n == DIAMOND_ORE || n == ICE {
            Material::Crystal
        } else if n == WATER {
            Material::Liquid
        } else {
            Material::Stone
        }
    }

    /// Bank order of this material.
    pub fn index(self) -> (r: usize)
        ensures
            r == material_index(self),
    {
        match self {
            Material::Stone => 0,
            Material::Dirt => 1,
            Material::Sand => 2,
            Material::Gravel => 3,
            Material::Snow => 4,
            Material::Wood => 5,
            Material::Leaves => 6,
            Material::Metal => 7,
            Material::Crystal => 8,
            Material::Liquid => 9,
        }
    }
}

impl Action {
    /// Bank order of this action.
    pub fn index(self) -> (r: usize)
        ensures
            r == action_index(self),
    {
        match self {
            Action::Dig => 0,
            Action::Break => 1,
            Action::Place => 2,
            Action::Step => 3,
        }
    }
}

/// Every material, in bank order.
pub fn materials() -> (r: [Material; 10])
    ensures
        forall|i: int| 0 <= i < 10 ==> material_index(#[trigger] r@[i]) == i,
{
    [
        Material::Stone,
        Material::Dirt,
        Material::Sand,
        Material::Gravel,
        Material::Snow,
        Material::Wood,
        Material::Leaves,
        Material::Metal,
        Material::Crystal,
        Material::Liquid,
    ]
}

/// Every action, in bank order.
pub fn actions() -> (r: [Action; 4])
    ensures
        forall|i: int| 0 <= i < 4 ==> action_index(#[trigger] r@[i]) == i,
{
    [Action::Dig, Action::Break, Action::Place, Action::Step]
}

/// The non-material sounds, in bank order.
pub fn oneshots() -> (r: [Sound; 9])
    ensures
        forall|i: int| 0 <= i < 9 ==> oneshot_index(#[trigger] r@[i]) == i && cooldown_slot_spec(r@[i]) == i + 4,
{
    [
        Sound::PlayerHurt,
        Sound::MobHurt,
        Sound::MobDeath,
        Sound::CreeperFuse,
        Sound::Explosion,
        Sound::BowShot,
        Sound::ArrowHit,
        Sound::CaveDrip,
        Sound::Wind,
    ]
}

/// Bank slot of one variant of a material sound.
pub fn material_slot(material: Material, action: Action, variant: usize) -> (r: usize)
    requires
        variant <= usize::MAX - 120,
    ensures
        r == material_slot_spec(material, action, variant as int),
{
    (material.index() * 4 + action.index()) * 3 + variant
}

/// Bank slot of one variant of a one-shot sound.
pub fn oneshot_slot(which: usize, variant: usize) -> (r: usize)
    requires
        120 + which * 3 + variant <= usize::MAX,
    ensures
        r == oneshot_slot_spec(which as int, variant as int),
{
    MATERIAL_SLOTS + which * VARIANTS + variant
}

impl Sound {
    /// Index of this sound's first variant in the bank.
    pub fn slot_base(self) -> (r: usize)
        ensures
            r == slot_base_spec(self),
    {
        match self {
            Sound::Dig(b) => material_slot(Material::of(b), Action::Dig, 0),
            Sound::Break(b) => material_slot(Material::of(b), Action::Break, 0),
            Sound::Place(b) => material_slot(Material::of(b), Action::Place, 0),
            Sound::Footstep(b) => material_slot(Material::of(b), Action::Step, 0),
            Sound::PlayerHurt => oneshot_slot(0, 0),
            Sound::MobHurt => oneshot_slot(1, 0),
            Sound::MobDeath => oneshot_slot(2, 0),
            Sound::CreeperFuse => oneshot_slot(3, 0),
            Sound::Explosion => oneshot_slot(4, 0),
            Sound::BowShot => oneshot_slot(5, 0),
            Sound::ArrowHit => oneshot_slot(6, 0),
            Sound::CaveDrip => oneshot_slot(7, 0),
            Sound::Wind => oneshot_slot(8, 0),
        }
    }

    /// Which cooldown throttles this sound kind.
    pub fn cooldown_slot(self) -> (r: usize)
        ensures
            r == cooldown_slot_spec(self),
    {
        match self {
            Sound::Dig(_) => 0,
            Sound::Break(_) => 1,
            Sound::Place(_) => 2,
            Sound::Footstep(_) => 3,
            Sound::PlayerHurt => 4,
            Sound::MobHurt => 5,
            Sound::MobDeath => 6,
            Sound::CreeperFuse => 7,
            Sound::Explosion => 8,
            Sound::BowShot => 9,
            Sound::ArrowHit => 10,
            Sound::CaveDrip => 11,
            Sound::Wind => 12,
        }
    }
}

/// The material at a bank position.
pub open spec fn material_at(i: int) -> Material {
    if i == 0 { Material::Stone }
    else if i == 1 { Material::Dirt }
    else if i == 2 { Material::Sand }
    else if i == 3 { Material::Gravel }
    else if i == 4 { Material::Snow }
    else if i == 5 { Material::Wood }
    else if i == 6 { Material::Leaves }
    else if i == 7 { Material::Metal }
    else if i == 8 { Material::Crystal }
    else { Material::Liquid }
}

/// The action at a bank position.
pub open spec fn action_at(i: int) -> Action {
    if i == 0 { Action::Dig }
    else if i == 1 { Action::Break }
    else if i == 2 { Action::Place }
    else { Action::Step }
}

/// Every slot of the bank is reachable: a slot below [`MATERIAL_SLOTS`] is
/// the slot of one material, action and variant, and every later slot below
/// [`TOTAL_SLOTS`] is the slot of one one-shot and variant.
pub proof fn lemma_every_slot_is_reachable(slot: int)
    requires
        0 <= slot < TOTAL_SLOTS,
    ensures
        slot < MATERIAL_SLOTS ==> slot == material_slot_spec(
            material_at(slot / 12),
            action_at((slot % 12) / 3),
            slot % 3,
        ),
        slot >= MATERIAL_SLOTS ==> 0 <= (slot - 120) / 3 < 9 && slot == oneshot_slot_spec(
            (slot - 120) / 3,
            (slot - 120) % 3,
        ),
{
}

/// Distinct material sounds never share a slot, and no material sound
/// lands on a one-shot's slot.
pub proof fn lemma_material_slots_distinct(m1: Material, a1: Action, v1: int, m2: Material, a2: Action, v2: int)
    requires
        0 <= v1 < 3,
        0 <= v2 < 3,
        material_slot_spec(m1, a1, v1) == material_slot_spec(m2, a2, v2),
    ensures
        m1 == m2 && a1 == a2 && v1 == v2,
        material_slot_spec(m1, a1, v1) < MATERIAL_SLOTS,
{
}

/// Distinct one-shots never share a slot, and every one-shot slot lies
/// after the material sounds and inside the bank.
pub proof fn lemma_oneshot_slots_distinct(o1: int, v1: int, o2: int, v2: int)
    requires
        0 <= o1 < 9,
        0 <= o2 < 9,
        0 <= v1 < 3,
        0 <= v2 < 3,
        oneshot_slot_spec(o1, v1) == oneshot_slot_spec(o2, v2),
    ensures
        o1 == o2 && v1 == v2,
        MATERIAL_SLOTS <= oneshot_slot_spec(o1, v1) < TOTAL_SLOTS,
{
}

/// One step of xorshift32: `x ^= x << 13; x ^= x >> 17; x ^= x << 5`.
pub open spec fn xorshift(x: u32) -> u32 {
    let a = x ^ (x << 13u32);
    let b = a ^ (a >> 17u32);
    b ^ (b << 5u32)
}

/// Deterministic noise for sound synthesis: a given seed always renders the
/// same buffer.
#[derive(Copy, Clone, Debug, PartialEq, Eq, Structural)]
pub struct Rng(pub u32);

impl Rng {
    /// Seeded generator. The low bit is forced on so the state is never zero,
    /// which xorshift could never leave.
    pub fn new(seed: u32) -> (r: Rng)
        ensures
            r.0 == seed | 1,
            r.0 != 0,
    {
        let r = Rng(seed | 1);
        assert(seed | 1 != 0) by (bit_vector);
        r
    }

    /// Advance and return the new state.
    pub fn next_u32(&mut self) -> (r: u32)
        ensures
            r == xorshift(old(self).0),
            final(self).0 == r,
    {
        let mut x = self.0;
        x = x ^ (x << 13u32);
        x = x ^ (x >> 17u32);
        x = x ^ (x << 5u32);
        self.0 = x;
        x
    }
}

/// xorshift32 never reaches zero from a non-zero state, so a seeded
/// generator keeps producing noise forever.
pub proof fn lemma_xorshift_nonzero(x: u32)
    requires
        x != 0,
    ensures
        xorshift(x) != 0,
{
    assert(x != 0 ==> ((x ^ (x << 13u32)) ^ ((x ^ (x << 13u32)) >> 17u32)) ^ (((x ^ (x << 13u32)) ^ ((x
        ^ (x << 13u32)) >> 17u32)) << 5u32) != 0) by (bit_vector);
}

} // verus!
