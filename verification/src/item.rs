//! Item identities: what the player carries, what blocks drop, and the
//! tool-tier table that gates mining.
//!
//! Numbering rule, relied on by save files: item ids `1..=17` are block items
//! and share the number of the block they place, so `ItemId(n).places()` is
//! `Some(BlockId(n))`. Non-block items start at 100; tools at 110.
use vstd::prelude::*;
use crate::block::{
    is_leaf_number, BlockId, AIR, ANDESITE, BEDROCK, BIRCH_LEAVES, BIRCH_LOG, DIORITE, GRANITE,
    GRASS_COLD, GRASS_DRY, GRASS_SWAMP, PODZOL, SANDSTONE, SPRUCE_LEAVES, SPRUCE_LOG, WATER,
};

verus! {

// Item numbers. An `ItemId` is built from one of these, as `ItemId(item::COAL)`.
pub const STONE: u16 = 1;
pub const DIRT: u16 = 2;
pub const GRASS: u16 = 3;
pub const SAND: u16 = 4;
pub const WOOD: u16 = 5;
pub const LEAVES: u16 = 6;
pub const PLANKS: u16 = 7;
pub const COBBLESTONE: u16 = 8;
pub const COAL_ORE: u16 = 9;
pub const IRON_ORE: u16 = 10;
pub const GOLD_ORE: u16 = 11;
pub const DIAMOND_ORE: u16 = 12;
pub const TORCH: u16 = 15;
pub const CRAFTING_TABLE: u16 = 16;
pub const FURNACE: u16 = 17;
pub const STICK: u16 = 100;
pub const COAL: u16 = 101;
pub const RAW_IRON: u16 = 102;
pub const IRON_INGOT: u16 = 103;
pub const WOODEN_PICKAXE: u16 = 110;
pub const STONE_PICKAXE: u16 = 111;
pub const IRON_PICKAXE: u16 = 112;
pub const WOODEN_AXE: u16 = 120;
pub const STONE_AXE: u16 = 121;
pub const IRON_AXE: u16 = 122;
pub const WOODEN_SWORD: u16 = 130;
pub const STONE_SWORD: u16 = 131;
pub const IRON_SWORD: u16 = 132;

/// Maximum items in one stack of anything stackable.
pub const MAX_STACK: u8 = 64;

/// What a tool is shaped like. Determines which blocks it speeds up.
#[derive(Copy, Clone, PartialEq, Eq, Structural, Debug, Hash)]
pub enum ToolKind {
    Pickaxe,
    Axe,
    Sword,
}

/// Material tier of a tool, weakest first: `Wood < Stone < Iron`.
#[derive(Copy, Clone, PartialEq, Eq, Structural, PartialOrd, Ord, Debug, Hash)]
pub enum ToolTier {
    Wood,
    Stone,
    Iron,
}

/// Numeric rank of a tier; gating compares ranks.
pub open spec fn tier_rank(t: ToolTier) -> u8 {
    match t {
        ToolTier::Wood => 0,
        ToolTier::Stone => 1,
        ToolTier::Iron => 2,
    }
}

/// Uses a tool of this tier survives.
pub open spec fn tier_durability(t: ToolTier) -> u16 {
    match t {
        ToolTier::Wood => 60,
        ToolTier::Stone => 132,
        ToolTier::Iron => 251,
    }
}

/// The item a tier's tools are crafted from.
pub open spec fn tier_material(t: ToolTier) -> u16 {
    match t {
        ToolTier::Wood => PLANKS,
        ToolTier::Stone => COBBLESTONE,
        ToolTier::Iron => IRON_INGOT,
    }
}

/// The tier's name in the data tables.
pub open spec fn tier_name(t: ToolTier) -> Seq<char> {
    match t {
        ToolTier::Wood => "wood"@,
        ToolTier::Stone => "stone"@,
        ToolTier::Iron => "iron"@,
    }
}

impl ToolTier {
    /// Numeric rank, for gating comparisons.
    pub fn rank(self) -> (r: u8)
        ensures
            r == tier_rank(self),
    {
        match self {
            ToolTier::Wood => 0,
            ToolTier::Stone => 1,
            ToolTier::Iron => 2,
        }
    }

    /// Uses before the tool breaks.
    pub fn durability(self) -> (r: u16)
        ensures
            r == tier_durability(self),
    {
        match self {
            ToolTier::Wood => 60,
            ToolTier::Stone => 132,
            ToolTier::Iron => 251,
        }
    }

    /// The item this tier is crafted from.
    pub fn material(self) -> (r: ItemId)
        ensures
            r.0 == tier_material(self),
    {
        match self {
            ToolTier::Wood => ItemId(PLANKS),
            ToolTier::Stone => ItemId(COBBLESTONE),
            ToolTier::Iron => ItemId(IRON_INGOT),
        }
    }

    /// The name this tier goes by in the data tables.
    pub fn data_name(self) -> (r: &'static str)
        ensures
            r@ == tier_name(self),
    {
        match self {
            ToolTier::Wood => "wood",
            ToolTier::Stone => "stone",
            ToolTier::Iron => "iron",
        }
    }
}

/// A carryable item. Block items share their `BlockId` number.
#[derive(Copy, Clone, PartialEq, Eq, Structural, Debug, Hash)]
pub struct ItemId(pub u16);

/// The numbers this build defines an item for.
pub open spec fn item_known(n: u16) -> bool {
    (1 <= n <= 12) || (15 <= n <= 17) || (100 <= n <= 103) || (110 <= n <= 112)
        || (120 <= n <= 122) || (130 <= n <= 132)
}

/// Block items: the numbers that place the block of the same number.
pub open spec fn is_block_item(n: u16) -> bool {
    (1 <= n <= 12) || (15 <= n <= 17)
}

/// Tool kind and tier of an item number, if it is a tool.
pub open spec fn tool_of(n: u16) -> Option<(ToolKind, ToolTier)> {
    if 110 <= n <= 132 && (n % 10) <= 2 && (n / 10 == 11 || n / 10 == 12 || n / 10 == 13) {
        let kind = if n / 10 == 11 {
            ToolKind::Pickaxe
        } else if n / 10 == 12 {
            ToolKind::Axe
        } else {
            ToolKind::Sword
        };
        let tier = if n % 10 == 0 {
            ToolTier::Wood
        } else if n % 10 == 1 {
            ToolTier::Stone
        } else {
            ToolTier::Iron
        };
        Some((kind, tier))
    } else {
        None
    }
}

/// The tool item of a kind and tier.
pub open spec fn tool_item_of(kind: ToolKind, tier: ToolTier) -> u16 {
    let base: u16 = match kind {
        ToolKind::Pickaxe => 110,
        ToolKind::Axe => 120,
        ToolKind::Sword => 130,
    };
    (base + tier_rank(tier)) as u16
}

/// Stack limit of an item number: 1 for tools, 64 for everything else.
pub open spec fn max_stack_of(n: u16) -> u8 {
    if tool_of(n) is Some {
        1
    } else {
        MAX_STACK
    }
}

/// Full durability of an item number: the tier's for a tool, 0 otherwise.
pub open spec fn max_durability_of(n: u16) -> u16 {
    match tool_of(n) {
        Some((_, tier)) => tier_durability(tier),
        None => 0,
    }
}

/// The block an item number places, if any.
pub open spec fn places_of(n: u16) -> Option<BlockId> {
    if is_block_item(n) {
        Some(BlockId(n as u8))
    } else {
        None
    }
}

/// Whole seconds of furnace burn one item gives, or `None` for an item that
/// is no fuel: coal is the workhorse, wood and what is made of it burns
/// because it must.
pub open spec fn fuel_seconds_of(n: u16) -> Option<u32> {
    if n == COAL {
        Some(80)
    } else if n == WOOD || n == PLANKS || n == CRAFTING_TABLE {
        Some(15)
    } else if n == STICK {
        Some(5)
    } else {
        None
    }
}

/// Display name of an item number.
pub open spec fn display_name(n: u16) -> Seq<char> {
    if n == STONE { "Stone"@ }
    else if n == DIRT { "Dirt"@ }
    else if n == GRASS { "Grass Block"@ }
    else if n == SAND { "Sand"@ }
    else if n == WOOD { "Wood"@ }
    else if n == LEAVES { "Leaves"@ }
    else if n == PLANKS { "Planks"@ }
    else if n == COBBLESTONE { "Cobblestone"@ }
    else if n == COAL_ORE { "Coal Ore"@ }
    else if n == IRON_ORE { "Iron Ore"@ }
    else if n == GOLD_ORE { "Gold Ore"@ }
    else if n == DIAMOND_ORE { "Diamond Ore"@ }
    else if n == TORCH { "Torch"@ }
    else if n == CRAFTING_TABLE { "Crafting Table"@ }
    else if n == FURNACE { "Furnace"@ }
    else if n == STICK { "Stick"@ }
    else if n == COAL { "Coal"@ }
    else if n == RAW_IRON { "Raw Iron"@ }
    else if n == IRON_INGOT { "Iron Ingot"@ }
    else if n == WOODEN_PICKAXE { "Wooden Pickaxe"@ }
    else if n == STONE_PICKAXE { "Stone Pickaxe"@ }
    else if n == IRON_PICKAXE { "Iron Pickaxe"@ }
    else if n == WOODEN_AXE { "Wooden Axe"@ }
    else if n == STONE_AXE { "Stone Axe"@ }
    else if n == IRON_AXE { "Iron Axe"@ }
    else if n == WOODEN_SWORD { "Wooden Sword"@ }
    else if n == STONE_SWORD { "Stone Sword"@ }
    else if n == IRON_SWORD { "Iron Sword"@ }
    else { "Unknown"@ }
}

/// Stable data name of an item number, as recipes and data files spell it.
pub open spec fn data_name_of(n: u16) -> Seq<char> {
    if n == STONE { "stone"@ }
    else if n == DIRT { "dirt"@ }
    else if n == GRASS { "grass"@ }
    else if n == SAND { "sand"@ }
    else if n == WOOD { "wood"@ }
    else if n == LEAVES { "leaves"@ }
    else if n == PLANKS { "planks"@ }
    else if n == COBBLESTONE { "cobblestone"@ }
    else if n == COAL_ORE { "coal_ore"@ }
    else if n == IRON_ORE { "iron_ore"@ }
    else if n == GOLD_ORE { "gold_ore"@ }
    else if n == DIAMOND_ORE { "diamond_ore"@ }
    else if n == TORCH { "torch"@ }
    else if n == CRAFTING_TABLE { "crafting_table"@ }
    else if n == FURNACE { "furnace"@ }
    else if n == STICK { "stick"@ }
    else if n == COAL { "coal"@ }
    else if n == RAW_IRON { "raw_iron"@ }
    else if n == IRON_INGOT { "iron_ingot"@ }
    else if n == WOODEN_PICKAXE { "wooden_pickaxe"@ }
    else if n == STONE_PICKAXE { "stone_pickaxe"@ }
    else if n == IRON_PICKAXE { "iron_pickaxe"@ }
    else if n == WOODEN_AXE { "wooden_axe"@ }
    else if n == STONE_AXE { "stone_axe"@ }
    else if n == IRON_AXE { "iron_axe"@ }
    else if n == WOODEN_SWORD { "wooden_sword"@ }
    else if n == STONE_SWORD { "stone_sword"@ }
    else if n == IRON_SWORD { "iron_sword"@ }
    else { "?"@ }
}

/// The item numbers this build defines, in listing order.
pub open spec fn all_item_numbers() -> Seq<u16> {
    seq![
        STONE, DIRT, GRASS, SAND, WOOD, LEAVES, PLANKS, COBBLESTONE, COAL_ORE, IRON_ORE,
        GOLD_ORE, DIAMOND_ORE, TORCH, CRAFTING_TABLE, FURNACE, STICK, COAL, RAW_IRON,
        IRON_INGOT, WOODEN_PICKAXE, STONE_PICKAXE, IRON_PICKAXE, WOODEN_AXE, STONE_AXE,
        IRON_AXE, WOODEN_SWORD, STONE_SWORD, IRON_SWORD,
    ]
}

/// Whether two strings hold the same characters.
fn str_equal(a: &str, b: &str) -> (r: bool)
    ensures
        r == (a@ == b@),
{
    let n = a.unicode_len();
    if n != b.unicode_len() {
        return false;
    }
    let mut i: usize = 0;
    while i < n
        invariant
            n == a@.len(),
            n == b@.len(),
            i <= n,
            forall|j: int| 0 <= j < i ==> a@[j] == b@[j],
        decreases n - i,
    {
        if a.get_char(i) != b.get_char(i) {
            return false;
        }
        i = i + 1;
    }
    assert(a@ =~= b@);
    true
}

impl ItemId {
    /// Every item this build defines, in listing order.
    pub fn all() -> (r: Vec<ItemId>)
        ensures
            r@.len() == all_item_numbers().len(),
            forall|i: int| 0 <= i < r@.len() ==> #[trigger] r@[i].0 == all_item_numbers()[i],
    {
        let nums: [u16; 28] = [
            STONE, DIRT, GRASS, SAND, WOOD, LEAVES, PLANKS, COBBLESTONE, COAL_ORE, IRON_ORE,
            GOLD_ORE, DIAMOND_ORE, TORCH, CRAFTING_TABLE, FURNACE, STICK, COAL, RAW_IRON,
            IRON_INGOT, WOODEN_PICKAXE, STONE_PICKAXE, IRON_PICKAXE, WOODEN_AXE, STONE_AXE,
            IRON_AXE, WOODEN_SWORD, STONE_SWORD, IRON_SWORD,
        ];
        assert(nums@ =~= all_item_numbers());
        let mut out: Vec<ItemId> = Vec::new();
        let mut i: usize = 0;
        while i < 28
            invariant
                i <= 28,
                nums@ == all_item_numbers(),
                out@.len() == i,
                forall|j: int| 0 <= j < i ==> #[trigger] out@[j].0 == nums@[j],
            decreases 28 - i,
        {
            out.push(ItemId(nums[i]));
            i = i + 1;
        }
        out
    }

    /// True if this build defines an item with this number.
    pub fn is_valid(self) -> (r: bool)
        ensures
            r == item_known(self.0),
    {
        let n = self.0;
        (1 <= n && n <= 12) || (15 <= n && n <= 17) || (100 <= n && n <= 103) || (110 <= n
            && n <= 112) || (120 <= n && n <= 122) || (130 <= n && n <= 132)
    }

    /// Whole seconds of furnace burn one of this item gives, or `None` if it
    /// is not a fuel.
    pub fn fuel_seconds(self) -> (r: Option<u32>)
        ensures
            r == fuel_seconds_of(self.0),
    {
        let n = self.0;
        if n == COAL {
            Some(80)
        } else if n == WOOD || n == PLANKS || n == CRAFTING_TABLE {
            Some(15)
        } else if n == STICK {
            Some(5)
        } else {
            None
        }
    }

    /// The block this item places, if it places anything.
    pub fn places(self) -> (r: Option<BlockId>)
        ensures
            r == places_of(self.0),
    {
        let n = self.0;
        if (1 <= n && n <= 12) || (15 <= n && n <= 17) {
            Some(BlockId(n as u8))
        } else {
            None
        }
    }

    /// The item form of a block, for blocks that have one.
    pub fn from_block(block: BlockId) -> (r: Option<ItemId>)
        ensures
            r == (if is_block_item(block.0 as u16) {
                Some(ItemId(block.0 as u16))
            } else {
                None::<ItemId>
            }),
    {
        let id = ItemId(block.0 as u16);
        match id.places() {
            Some(b) => {
                if b.0 == block.0 {
                    Some(id)
                } else {
                    None
                }
            },
            None => None,
        }
    }

    /// Tool kind and tier, or `None` for anything that is not a tool.
    pub fn tool(self) -> (r: Option<(ToolKind, ToolTier)>)
        ensures
            r == tool_of(self.0),
    {
        let n = self.0;
        if 110 <= n && n <= 132 && n % 10 <= 2 && (n / 10 == 11 || n / 10 == 12 || n / 10
            == 13) {
            let kind = if n / 10 == 11 {
                ToolKind::Pickaxe
            } else if n / 10 == 12 {
                ToolKind::Axe
            } else {
                ToolKind::Sword
            };
            let tier = if n % 10 == 0 {
                ToolTier::Wood
            } else if n % 10 == 1 {
                ToolTier::Stone
            } else {
                ToolTier::Iron
            };
            Some((kind, tier))
        } else {
            None
        }
    }

    /// The tool item for a kind and tier. Inverse of [`ItemId::tool`].
    pub fn tool_item(kind: ToolKind, tier: ToolTier) -> (r: ItemId)
        ensures
            r.0 == tool_item_of(kind, tier),
            tool_of(r.0) == Some((kind, tier)),
    {
        let base: u16 = match kind {
            ToolKind::Pickaxe => 110,
            ToolKind::Axe => 120,
            ToolKind::Sword => 130,
        };
        ItemId(base + tier.rank() as u16)
    }

    /// True for tools, which never stack and carry durability.
    pub fn is_tool(self) -> (r: bool)
        ensures
            r == (tool_of(self.0) is Some),
    {
        self.tool().is_some()
    }

    /// How many of this item fit in one stack.
    pub fn max_stack(self) -> (r: u8)
        ensures
            r == max_stack_of(self.0),
    {
        if self.is_tool() {
            1
        } else {
            MAX_STACK
        }
    }

    /// Full durability for a tool; 0 for everything else.
    pub fn max_durability(self) -> (r: u16)
        ensures
            r == max_durability_of(self.0),
    {
        match self.tool() {
            Some((_, tier)) => tier.durability(),
            None => 0,
        }
    }

    /// Display name for the hotbar and inventory UI.
    pub fn name(self) -> (r: &'static str)
        ensures
            r@ == display_name(self.0),
    {
        let n = self.0;
        if n == STONE { "Stone" }
        else if n == DIRT { "Dirt" }
        else if n == GRASS { "Grass Block" }
        else if n == SAND { "Sand" }
        else if n == WOOD { "Wood" }
        else if n == LEAVES { "Leaves" }
        else if n == PLANKS { "Planks" }
        else if n == COBBLESTONE { "Cobblestone" }
        else if n == COAL_ORE { "Coal Ore" }
        else if n == IRON_ORE { "Iron Ore" }
        else if n == GOLD_ORE { "Gold Ore" }
        else if n == DIAMOND_ORE { "Diamond Ore" }
        else if n == TORCH { "Torch" }
        else if n == CRAFTING_TABLE { "Crafting Table" }
        else if n == FURNACE { "Furnace" }
        else if n == STICK { "Stick" }
        else if n == COAL { "Coal" }
        else if n == RAW_IRON { "Raw Iron" }
        else if n == IRON_INGOT { "Iron Ingot" }
        else if n == WOODEN_PICKAXE { "Wooden Pickaxe" }
        else if n == STONE_PICKAXE { "Stone Pickaxe" }
        else if n == IRON_PICKAXE { "Iron Pickaxe" }
        else if n == WOODEN_AXE { "Wooden Axe" }
        else if n == STONE_AXE { "Stone Axe" }
        else if n == IRON_AXE { "Iron Axe" }
        else if n == WOODEN_SWORD { "Wooden Sword" }
        else if n == STONE_SWORD { "Stone Sword" }
        else if n == IRON_SWORD { "Iron Sword" }
        else { "Unknown" }
    }

    /// The stable data name, e.g. `"iron_ingot"`.
    pub fn data_name(self) -> (r: &'static str)
        ensures
            r@ == data_name_of(self.0),
    {
        let n = self.0;
        if n == STONE { "stone" }
        else if n == DIRT { "dirt" }
        else if n == GRASS { "grass" }
        else if n == SAND { "sand" }
        else if n == WOOD { "wood" }
        else if n == LEAVES { "leaves" }
        else if n == PLANKS { "planks" }
        else if n == COBBLESTONE { "cobblestone" }
        else if n == COAL_ORE { "coal_ore" }
        else if n == IRON_ORE { "iron_ore" }
        else if n == GOLD_ORE { "gold_ore" }
        else if n == DIAMOND_ORE { "diamond_ore" }
        else if n == TORCH { "torch" }
        else if n == CRAFTING_TABLE { "crafting_table" }
        else if n == FURNACE { "furnace" }
        else if n == STICK { "stick" }
        else if n == COAL { "coal" }
        else if n == RAW_IRON { "raw_iron" }
        else if n == IRON_INGOT { "iron_ingot" }
        else if n == WOODEN_PICKAXE { "wooden_pickaxe" }
        else if n == STONE_PICKAXE { "stone_pickaxe" }
        else if n == IRON_PICKAXE { "iron_pickaxe" }
        else if n == WOODEN_AXE { "wooden_axe" }
        else if n == STONE_AXE { "stone_axe" }
        else if n == IRON_AXE { "iron_axe" }
        else if n == WOODEN_SWORD { "wooden_sword" }
        else if n == STONE_SWORD { "stone_sword" }
        else if n == IRON_SWORD { "iron_sword" }
        else { "?" }
    }

    /// Look an item up by its data name.
    pub fn from_name(name: &str) -> (r: Option<ItemId>)
        ensures
            r matches Some(id) ==> item_known(id.0) && data_name_of(id.0) == name@,
            r is None ==> forall|n: u16| item_known(n) ==> data_name_of(n) != name@,
    {
        let all = ItemId::all();
        let mut i: usize = 0;
        while i < all.len()
            invariant
                all@.len() == all_item_numbers().len(),
                forall|j: int| 0 <= j < all@.len() ==> #[trigger] all@[j].0 == all_item_numbers()[j],
                i <= all@.len(),
                forall|j: int| 0 <= j < i ==> data_name_of(#[trigger] all_item_numbers()[j]) != name@,
            decreases all@.len() - i,
        {
            let id = all[i];
            if str_equal(id.data_name(), name) {
                proof {
                    lemma_listed_items_are_known(i as int);
                }
                return Some(id);
            }
            i = i + 1;
        }
        proof {
            assert forall|n: u16| item_known(n) implies data_name_of(n) != name@ by {
                lemma_known_items_are_listed(n);
            }
        }
        None
    }
}

/// Every listed item number is a known one.
proof fn lemma_listed_items_are_known(i: int)
    requires
        0 <= i < all_item_numbers().len(),
    ensures
        item_known(all_item_numbers()[i]),
{
}

/// Every known item number is listed.
proof fn lemma_known_items_are_listed(n: u16)
    requires
        item_known(n),
    ensures
        exists|i: int| 0 <= i < all_item_numbers().len() && all_item_numbers()[i] == n,
{
    let s = all_item_numbers();
    if n <= 12 {
        assert(s[n - 1] == n);
    } else if n <= 17 {
        assert(s[n - 3] == n);
    } else if n <= 103 {
        assert(s[n - 85] == n);
    } else if n <= 112 {
        assert(s[n - 91] == n);
    } else if n <= 122 {
        assert(s[n - 98] == n);
    } else {
        assert(s[n - 105] == n);
    }
}

// --- the tier gating table ---------------------------------------------------

/// How a block responds to tools.
#[derive(Copy, Clone, PartialEq, Eq, Debug)]
pub struct HarvestRule {
    /// The tool kind that mines this block faster, if any.
    pub effective: Option<ToolKind>,
    /// Minimum tool needed to get a drop at all. `None` means bare hands work.
    pub required: Option<(ToolKind, ToolTier)>,
    /// False when nothing can ever harvest it: air, water, bedrock.
    pub harvestable: bool,
}

/// Stone-like blocks that need at least a wooden pickaxe.
pub open spec fn needs_wood_pick(n: u8) -> bool {
    n == crate::block::STONE || n == crate::block::COBBLESTONE || n == crate::block::COAL_ORE
        || n == crate::block::FURNACE || n == SANDSTONE || n == GRANITE || n == DIORITE
        || n == ANDESITE
}

/// Blocks an axe fells faster.
pub open spec fn axe_block(n: u8) -> bool {
    n == crate::block::WOOD || n == crate::block::PLANKS || n == crate::block::CRAFTING_TABLE
        || n == BIRCH_LOG || n == SPRUCE_LOG
}

/// The harvest rule of every block number.
pub open spec fn harvest_rule_of(n: u8) -> HarvestRule {
    if n == AIR || n == WATER || n == BEDROCK {
        HarvestRule { effective: None, required: None, harvestable: false }
    } else if needs_wood_pick(n) {
        HarvestRule {
            effective: Some(ToolKind::Pickaxe),
            required: Some((ToolKind::Pickaxe, ToolTier::Wood)),
            harvestable: true,
        }
    } else if n == crate::block::IRON_ORE {
        HarvestRule {
            effective: Some(ToolKind::Pickaxe),
            required: Some((ToolKind::Pickaxe, ToolTier::Stone)),
            harvestable: true,
        }
    } else if n == crate::block::GOLD_ORE || n == crate::block::DIAMOND_ORE {
        HarvestRule {
            effective: Some(ToolKind::Pickaxe),
            required: Some((ToolKind::Pickaxe, ToolTier::Iron)),
            harvestable: true,
        }
    } else if axe_block(n) {
        HarvestRule { effective: Some(ToolKind::Axe), required: None, harvestable: true }
    } else if is_leaf_number(n) {
        HarvestRule { effective: Some(ToolKind::Sword), required: None, harvestable: true }
    } else {
        HarvestRule { effective: None, required: None, harvestable: true }
    }
}

/// What a block number drops when harvested.
pub open spec fn drop_of(n: u8) -> Option<u16> {
    if n == crate::block::STONE || n == crate::block::COBBLESTONE || n == SANDSTONE || n
        == GRANITE || n == DIORITE || n == ANDESITE {
        Some(COBBLESTONE)
    } else if n == crate::block::COAL_ORE {
        Some(COAL)
    } else if n == crate::block::IRON_ORE {
        Some(RAW_IRON)
    } else if n == crate::block::GRASS || n == GRASS_COLD || n == GRASS_DRY || n == GRASS_SWAMP
        || n == PODZOL || n == crate::block::DIRT {
        Some(DIRT)
    } else if n == BIRCH_LOG || n == SPRUCE_LOG {
        Some(WOOD)
    } else if n == crate::block::SAND || n == crate::block::WOOD || n == crate::block::PLANKS
        || n == crate::block::GOLD_ORE || n == crate::block::DIAMOND_ORE || n
        == crate::block::TORCH || n == crate::block::CRAFTING_TABLE || n
        == crate::block::FURNACE {
        Some(n as u16)
    } else {
        None
    }
}

/// Whether a held item (or an empty hand) satisfies a block's rule.
pub open spec fn harvest_allowed(tool: Option<ItemId>, n: u8) -> bool {
    let rule = harvest_rule_of(n);
    rule.harvestable && match rule.required {
        None => true,
        Some((need_kind, need_tier)) => match tool {
            Some(id) => match tool_of(id.0) {
                Some((kind, tier)) => kind == need_kind && tier_rank(tier) >= tier_rank(need_tier),
                None => false,
            },
            None => false,
        },
    }
}

/// The tier table: how each block responds to tools.
pub fn harvest_rule(block: BlockId) -> (r: HarvestRule)
    ensures
        r == harvest_rule_of(block.0),
{
    let n = block.0;
    if n == AIR || n == WATER || n == BEDROCK {
        HarvestRule { effective: None, required: None, harvestable: false }
    } else if n == crate::block::STONE || n == crate::block::COBBLESTONE || n
        == crate::block::COAL_ORE || n == crate::block::FURNACE || n == SANDSTONE || n == GRANITE
        || n == DIORITE || n == ANDESITE {
        HarvestRule {
            effective: Some(ToolKind::Pickaxe),
            required: Some((ToolKind::Pickaxe, ToolTier::Wood)),
            harvestable: true,
        }
    } else if n == crate::block::IRON_ORE {
        HarvestRule {
            effective: Some(ToolKind::Pickaxe),
            required: Some((ToolKind::Pickaxe, ToolTier::Stone)),
            harvestable: true,
        }
    } else if n == crate::block::GOLD_ORE || n == crate::block::DIAMOND_ORE {
        HarvestRule {
            effective: Some(ToolKind::Pickaxe),
            required: Some((ToolKind::Pickaxe, ToolTier::Iron)),
            harvestable: true,
        }
    } else if n == crate::block::WOOD || n == crate::block::PLANKS || n
        == crate::block::CRAFTING_TABLE || n == BIRCH_LOG || n == SPRUCE_LOG {
        HarvestRule { effective: Some(ToolKind::Axe), required: None, harvestable: true }
    } else if n == crate::block::LEAVES || n == BIRCH_LEAVES || n == SPRUCE_LEAVES {
        HarvestRule { effective: Some(ToolKind::Sword), required: None, harvestable: true }
    } else {
        HarvestRule { effective: None, required: None, harvestable: true }
    }
}

/// Whether mining `block` with `tool` yields a drop. Breaking is always
/// allowed; this only decides whether the player gets anything for it.
pub fn can_harvest(tool: Option<ItemId>, block: BlockId) -> (r: bool)
    ensures
        r == harvest_allowed(tool, block.0),
{
    let rule = harvest_rule(block);
    if !rule.harvestable {
        return false;
    }
    match rule.required {
        None => true,
        Some((need_kind, need_tier)) => {
            let held = match tool {
                Some(id) => id.tool(),
                None => None,
            };
            match held {
                Some((kind, tier)) => kind == need_kind && tier.rank() >= need_tier.rank(),
                None => false,
            }
        },
    }
}

/// What `block` drops when mined with a tool that can harvest it.
pub fn block_drop(block: BlockId) -> (r: Option<ItemId>)
    ensures
        r == (match drop_of(block.0) {
            Some(n) => Some(ItemId(n)),
            None => None::<ItemId>,
        }),
{
    let n = block.0;
    if n == crate::block::STONE || n == crate::block::COBBLESTONE || n == SANDSTONE || n
        == GRANITE || n == DIORITE || n == ANDESITE {
        Some(ItemId(COBBLESTONE))
    } else if n == crate::block::COAL_ORE {
        Some(ItemId(COAL))
    } else if n == crate::block::IRON_ORE {
        Some(ItemId(RAW_IRON))
    } else if n == crate::block::GRASS || n == GRASS_COLD || n == GRASS_DRY || n == GRASS_SWAMP
        || n == PODZOL || n == crate::block::DIRT {
        Some(ItemId(DIRT))
    } else if n == BIRCH_LOG || n == SPRUCE_LOG {
        Some(ItemId(WOOD))
    } else if n == crate::block::SAND || n == crate::block::WOOD || n == crate::block::PLANKS
        || n == crate::block::GOLD_ORE || n == crate::block::DIAMOND_ORE || n
        == crate::block::TORCH || n == crate::block::CRAFTING_TABLE || n
        == crate::block::FURNACE {
        Some(ItemId(n as u16))
    } else {
        None
    }
}

/// The drop from mining `block` with `tool`, `None` if it yields nothing.
pub fn mining_drop(tool: Option<ItemId>, block: BlockId) -> (r: Option<ItemId>)
    ensures
        r == (if harvest_allowed(tool, block.0) {
            match drop_of(block.0) {
                Some(n) => Some(ItemId(n)),
                None => None::<ItemId>,
            }
        } else {
            None::<ItemId>
        }),
{
    if can_harvest(tool, block) {
        block_drop(block)
    } else {
        None
    }
}

} // verus!
