//! Block identities and their static properties.
//!
//! Ids 0..=17 are frozen: save files store raw block numbers and item ids are
//! derived from them. New blocks are appended from 18 upward.
use vstd::prelude::*;

verus! {

// Block numbers. A `BlockId` is built from one of these, as `BlockId(STONE)`.
pub const AIR: u8 = 0;
pub const STONE: u8 = 1;
pub const DIRT: u8 = 2;
pub const GRASS: u8 = 3;
pub const SAND: u8 = 4;
pub const WOOD: u8 = 5;
pub const LEAVES: u8 = 6;
pub const PLANKS: u8 = 7;
pub const COBBLESTONE: u8 = 8;
pub const COAL_ORE: u8 = 9;
pub const IRON_ORE: u8 = 10;
pub const GOLD_ORE: u8 = 11;
pub const DIAMOND_ORE: u8 = 12;
pub const BEDROCK: u8 = 13;
pub const WATER: u8 = 14;
pub const TORCH: u8 = 15;
pub const CRAFTING_TABLE: u8 = 16;
pub const FURNACE: u8 = 17;
pub const SANDSTONE: u8 = 18;
pub const GRAVEL: u8 = 19;
pub const CLAY: u8 = 20;
pub const SNOW: u8 = 21;
pub const ICE: u8 = 22;
pub const GRANITE: u8 = 23;
pub const DIORITE: u8 = 24;
pub const ANDESITE: u8 = 25;
pub const BIRCH_LOG: u8 = 26;
pub const BIRCH_LEAVES: u8 = 27;
pub const SPRUCE_LOG: u8 = 28;
pub const SPRUCE_LEAVES: u8 = 29;
pub const CACTUS: u8 = 30;
pub const TALL_GRASS: u8 = 31;
pub const FLOWER_RED: u8 = 32;
pub const FLOWER_YELLOW: u8 = 33;
pub const DEAD_BUSH: u8 = 34;
pub const GRASS_COLD: u8 = 35;
pub const GRASS_DRY: u8 = 36;
pub const GRASS_SWAMP: u8 = 37;
pub const PODZOL: u8 = 38;

/// A block type, by its stable number.
#[derive(Copy, Clone, PartialEq, Eq, Structural, Debug, Default, Hash)]
pub struct BlockId(pub u8);

/// How the mesher and the renderer must treat a block's geometry.
#[derive(Copy, Clone, PartialEq, Eq, Structural, Debug)]
pub enum RenderKind {
    /// A full opaque cube.
    Solid,
    /// A full cube with holes in its texture: leaves.
    Cutout,
    /// Two intersecting vertical quads: ground cover.
    Cross,
    /// A thin standing post: the torch.
    Post,
    /// Translucent, blended, drawn last.
    Water,
}

/// Numbers of the blocks that occlude nothing behind them.
pub open spec fn see_through(n: u8) -> bool {
    n == AIR || n == WATER || is_leaf_number(n) || n == TORCH || is_ground_cover(n)
}

/// Tall grass, the two flowers and the dead bush.
pub open spec fn is_ground_cover(n: u8) -> bool {
    n == TALL_GRASS || n == FLOWER_RED || n == FLOWER_YELLOW || n == DEAD_BUSH
}

/// Leaf blocks: oak, birch and spruce.
pub open spec fn is_leaf_number(n: u8) -> bool {
    n == LEAVES || n == BIRCH_LEAVES || n == SPRUCE_LEAVES
}

/// The render kind of each block number.
pub open spec fn render_kind_of(n: u8) -> RenderKind {
    if n == WATER {
        RenderKind::Water
    } else if is_leaf_number(n) {
        RenderKind::Cutout
    } else if is_ground_cover(n) {
        RenderKind::Cross
    } else if n == TORCH {
        RenderKind::Post
    } else {
        RenderKind::Solid
    }
}

impl BlockId {

    /// Highest id this build knows about.
    pub const MAX: u8 = 38;

    /// True only for air.
    pub fn is_air(self) -> (r: bool)
        ensures
            r == (self.0 == 0),
    {
        self.0 == 0
    }

    /// Whether this block hides the faces of its neighbours. Air, water,
    /// leaves, the torch and ground cover do not.
    pub fn is_opaque(self) -> (r: bool)
        ensures
            r == !see_through(self.0),
    {
        let n = self.0;
        !(n == 0 || n == 14 || n == 6 || n == 27 || n == 29 || n == 15 || n == 31 || n == 32
            || n == 33 || n == 34)
    }

    /// Whether placing a block here simply replaces what is there: air, water
    /// and ground cover give way.
    pub fn is_replaceable(self) -> (r: bool)
        ensures
            r == (self.0 == 0 || self.0 == 14 || is_ground_cover(self.0)),
    {
        let n = self.0;
        n == 0 || n == 14 || n == 31 || n == 32 || n == 33 || n == 34
    }

    /// Whether the player collides with it: everything but air, water, the
    /// torch and ground cover.
    pub fn is_solid(self) -> (r: bool)
        ensures
            r == !(self.0 == 0 || self.0 == 14 || self.0 == 15 || is_ground_cover(self.0)),
    {
        let n = self.0;
        !(n == 0 || n == 14 || n == 15 || n == 31 || n == 32 || n == 33 || n == 34)
    }

    /// The grass family plus podzol: ground a plant or tree roots in.
    pub fn is_grassy(self) -> (r: bool)
        ensures
            r == (self.0 == 3 || self.0 == 35 || self.0 == 36 || self.0 == 37 || self.0 == 38),
    {
        let n = self.0;
        n == 3 || n == 35 || n == 36 || n == 37 || n == 38
    }

    /// Any tree trunk.
    pub fn is_log(self) -> (r: bool)
        ensures
            r == (self.0 == 5 || self.0 == 26 || self.0 == 28),
    {
        let n = self.0;
        n == 5 || n == 26 || n == 28
    }

    /// Any leaf block.
    pub fn is_leaves(self) -> (r: bool)
        ensures
            r == is_leaf_number(self.0),
    {
        let n = self.0;
        n == 6 || n == 27 || n == 29
    }

    /// How this block is built into geometry and which pass draws it.
    pub fn render_kind(self) -> (r: RenderKind)
        ensures
            r == render_kind_of(self.0),
    {
        let n = self.0;
        if n == 14 {
            RenderKind::Water
        } else if n == 6 || n == 27 || n == 29 {
            RenderKind::Cutout
        } else if n == 31 || n == 32 || n == 33 || n == 34 {
            RenderKind::Cross
        } else if n == 15 {
            RenderKind::Post
        } else {
            RenderKind::Solid
        }
    }

    /// True for the ground cover drawn as two crossed quads.
    pub fn is_cross(self) -> (r: bool)
        ensures
            r == is_ground_cover(self.0),
    {
        self.render_kind() == RenderKind::Cross
    }
}

} // verus!
