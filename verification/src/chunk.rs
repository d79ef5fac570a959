//! Chunk storage, including the sparse sub-voxel damage layer.
//!
//! 8^3 = 512 sub-voxels per block. An undamaged block stores nothing and is
//! treated as implicitly full; only chipped blocks carry a 64-byte bitmask,
//! and they drop out of the map the moment they are fully carved (the block
//! becomes air).
use vstd::prelude::*;
use std::collections::HashMap;
use crate::block::{BlockId, AIR};

verus! {

broadcast use vstd::std_specs::hash::group_hash_axioms;

/// Blocks per chunk edge.
pub const CHUNK_SIZE: usize = 16;
/// Blocks per chunk.
pub const CHUNK_VOL: usize = 4096;
/// Sub-voxels per block edge.
pub const SUBVOX: usize = 8;
/// Number of bytes in one block's sub-voxel bitmask (512 bits).
pub const MASK_BYTES: usize = 64;

/// Chunk coordinate in chunk space.
#[derive(Copy, Clone, PartialEq, Eq, Structural, Hash, Debug, PartialOrd, Ord)]
pub struct ChunkPos {
    pub x: i32,
    pub y: i32,
    pub z: i32,
}

impl ChunkPos {
    pub fn new(x: i32, y: i32, z: i32) -> (r: ChunkPos)
        ensures
            r == (ChunkPos { x, y, z }),
    {
        ChunkPos { x, y, z }
    }

    /// World-space block coordinate of this chunk's minimum corner.
    pub fn origin(self) -> (r: (i32, i32, i32))
        requires
            i32::MIN <= self.x * 16 <= i32::MAX,
            i32::MIN <= self.y * 16 <= i32::MAX,
            i32::MIN <= self.z * 16 <= i32::MAX,
        ensures
            r.0 == self.x * 16,
            r.1 == self.y * 16,
            r.2 == self.z * 16,
    {
        (self.x * 16, self.y * 16, self.z * 16)
    }
}

// --- sub-voxel masks -------------------------------------------------------------

/// Bit number of sub-voxel `(x, y, z)`: `(y * 8 + z) * 8 + x`.
pub open spec fn sub_index(x: int, y: int, z: int) -> int {
    (y * 8 + z) * 8 + x
}

/// Whether bit `k` of a byte is set.
pub open spec fn byte_bit(b: u8, k: u8) -> bool {
    b & (1u8 << k) != 0
}

/// Whether sub-voxel bit `i` of a mask is solid: bit `i % 8` of byte `i / 8`.
pub open spec fn mask_solid(m: Seq<u8>, i: int) -> bool {
    byte_bit(m[i / 8], (i % 8) as u8)
}

/// A mask with bit `i` cleared.
pub open spec fn mask_cleared(m: Seq<u8>, i: int) -> Seq<u8> {
    m.update(i / 8, m[i / 8] & !(1u8 << ((i % 8) as u8)))
}

/// A mask with bit `i` set.
pub open spec fn mask_with(m: Seq<u8>, i: int) -> Seq<u8> {
    m.update(i / 8, m[i / 8] | (1u8 << ((i % 8) as u8)))
}

pub open spec fn all_bytes(m: Seq<u8>, v: u8) -> bool {
    forall|j: int| 0 <= j < m.len() ==> m[j] == v
}

proof fn lemma_index_bits(i: usize)
    requires
        i < 512,
    ensures
        i >> 3 == i / 8,
        i & 7 == i % 8,
{
    assert(i >> 3 == i / 8) by (bit_vector);
    assert(i & 7 == i % 8) by (bit_vector);
}

proof fn lemma_byte_clear(b: u8, k: u8, k2: u8)
    requires
        k < 8,
        k2 < 8,
    ensures
        byte_bit(b & !(1u8 << k), k2) == (k2 != k && byte_bit(b, k2)),
        byte_bit(b | (1u8 << k), k2) == (k2 == k || byte_bit(b, k2)),
{
    assert(((b & !(1u8 << k)) & (1u8 << k2) != 0) == (k2 != k && b & (1u8 << k2) != 0))
        by (bit_vector)
        requires
            k < 8,
            k2 < 8,
    ;
    assert(((b | (1u8 << k)) & (1u8 << k2) != 0) == (k2 == k || b & (1u8 << k2) != 0))
        by (bit_vector)
        requires
            k < 8,
            k2 < 8,
    ;
}

proof fn lemma_byte_zero(b: u8)
    ensures
        (b == 0) == (forall|k: u8| k < 8 ==> !#[trigger] byte_bit(b, k)),
{
    if b != 0 {
        assert(b != 0 ==> (b & (1u8 << 0u8) != 0 || b & (1u8 << 1u8) != 0 || b & (1u8 << 2u8) != 0
            || b & (1u8 << 3u8) != 0 || b & (1u8 << 4u8) != 0 || b & (1u8 << 5u8) != 0 || b & (1u8
            << 6u8) != 0 || b & (1u8 << 7u8) != 0)) by (bit_vector);
        if byte_bit(b, 0) {
        } else if byte_bit(b, 1) {
        } else if byte_bit(b, 2) {
        } else if byte_bit(b, 3) {
        } else if byte_bit(b, 4) {
        } else if byte_bit(b, 5) {
        } else if byte_bit(b, 6) {
        } else {
            assert(byte_bit(b, 7));
        }
    } else {
        assert forall|k: u8| k < 8 implies !#[trigger] byte_bit(b, k) by {
            assert(0u8 & (1u8 << k) == 0) by (bit_vector);
        }
    }
}

/// Clearing one sub-voxel clears exactly that one: every other sub-voxel
/// keeps its state.
pub proof fn lemma_clear_only_that_bit(m: Seq<u8>, i: int, j: int)
    requires
        m.len() == 64,
        0 <= i < 512,
        0 <= j < 512,
    ensures
        mask_solid(mask_cleared(m, i), j) == (j != i && mask_solid(m, j)),
        mask_solid(mask_with(m, i), j) == (j == i || mask_solid(m, j)),
{
    lemma_byte_clear(m[i / 8], (i % 8) as u8, (j % 8) as u8);
}

/// A mask has no solid sub-voxel exactly when every byte is zero.
pub proof fn lemma_empty_mask(m: Seq<u8>)
    requires
        m.len() == 64,
    ensures
        all_bytes(m, 0) == (forall|j: int| 0 <= j < 512 ==> !#[trigger] mask_solid(m, j)),
{
    if all_bytes(m, 0) {
        assert forall|j: int| 0 <= j < 512 implies !#[trigger] mask_solid(m, j) by {
            lemma_byte_zero(m[j / 8]);
            assert(!byte_bit(m[j / 8], (j % 8) as u8));
        }
    } else {
        let b = choose|b: int| 0 <= b < 64 && m[b] != 0;
        lemma_byte_zero(m[b]);
        let k = choose|k: u8| k < 8 && #[trigger] byte_bit(m[b], k);
        assert(mask_solid(m, b * 8 + k));
    }
}

/// A 512-bit occupancy mask over one block's sub-voxels. A set bit is solid.
#[derive(Copy, Clone)]
pub struct SubMask(pub [u8; 64]);

impl SubMask {
    /// A fully solid block.
    pub fn full() -> (r: SubMask)
        ensures
            all_bytes(r.0@, 0xFF),
    {
        SubMask([0xFF; 64])
    }

    /// Whether sub-voxel `(x, y, z)` is still solid.
    pub fn get(&self, x: usize, y: usize, z: usize) -> (r: bool)
        requires
            sub_index(x as int, y as int, z as int) < 512,
        ensures
            r == mask_solid(self.0@, sub_index(x as int, y as int, z as int)),
    {
        let i = (y * 8 + z) * 8 + x;
        proof {
            lemma_index_bits(i);
        }
        let k = (i & 7) as u8;
        self.0[i >> 3] & (1u8 << k) != 0
    }

    /// Carve sub-voxel `(x, y, z)` out.
    pub fn clear(&mut self, x: usize, y: usize, z: usize)
        requires
            sub_index(x as int, y as int, z as int) < 512,
        ensures
            final(self).0@ == mask_cleared(old(self).0@, sub_index(x as int, y as int, z as int)),
    {
        let i = (y * 8 + z) * 8 + x;
        proof {
            lemma_index_bits(i);
        }
        let k = (i & 7) as u8;
        let b = i >> 3;
        self.0[b] = self.0[b] & !(1u8 << k);
    }

    /// Make sub-voxel `(x, y, z)` solid again.
    pub fn set(&mut self, x: usize, y: usize, z: usize)
        requires
            sub_index(x as int, y as int, z as int) < 512,
        ensures
            final(self).0@ == mask_with(old(self).0@, sub_index(x as int, y as int, z as int)),
    {
        let i = (y * 8 + z) * 8 + x;
        proof {
            lemma_index_bits(i);
        }
        let k = (i & 7) as u8;
        let b = i >> 3;
        self.0[b] = self.0[b] | (1u8 << k);
    }

    /// True when nothing solid is left.
    pub fn is_empty(&self) -> (r: bool)
        ensures
            r == all_bytes(self.0@, 0),
    {
        let mut j: usize = 0;
        while j < 64
            invariant
                j <= 64,
                forall|k: int| 0 <= k < j ==> self.0@[k] == 0,
            decreases 64 - j,
        {
            if self.0[j] != 0 {
                return false;
            }
            j = j + 1;
        }
        true
    }

    /// True when every sub-voxel is solid.
    pub fn is_full(&self) -> (r: bool)
        ensures
            r == all_bytes(self.0@, 0xFF),
    {
        let mut j: usize = 0;
        while j < 64
            invariant
                j <= 64,
                forall|k: int| 0 <= k < j ==> self.0@[k] == 0xFF,
            decreases 64 - j,
        {
            if self.0[j] != 0xFF {
                return false;
            }
            j = j + 1;
        }
        true
    }
}

// --- chunks --------------------------------------------------------------------

/// Raw index of a block within a chunk, before narrowing to `u16`.
pub open spec fn local_index_raw(x: int, y: int, z: int) -> int {
    (y * 16 + z) * 16 + x
}

/// Index of a block within a chunk: `(y * 16 + z) * 16 + x`, as a `u16`.
pub fn local_index(x: usize, y: usize, z: usize) -> (r: u16)
    requires
        local_index_raw(x as int, y as int, z as int) <= usize::MAX,
    ensures
        r == local_index_raw(x as int, y as int, z as int) as u16,
{
    ((y * 16 + z) * 16 + x) as u16
}

/// The abstract contents of a chunk.
pub struct ChunkView {
    pub pos: ChunkPos,
    pub blocks: Seq<BlockId>,
    pub damage: Map<u16, SubMask>,
    pub dirty: bool,
    pub generated: bool,
}

pub struct Chunk {
    pub pos: ChunkPos,
    blocks: [BlockId; 4096],
    /// Sparse: only blocks that have been chipped appear here.
    damage: HashMap<u16, SubMask>,
    /// Set when the block or damage data changed and the mesh is stale.
    pub dirty: bool,
    /// True once terrain generation has filled this chunk.
    pub generated: bool,
}

impl View for Chunk {
    type V = ChunkView;

    closed spec fn view(&self) -> ChunkView {
        ChunkView {
            pos: self.pos,
            blocks: self.blocks@,
            damage: self.damage@,
            dirty: self.dirty,
            generated: self.generated,
        }
    }
}

/// The sparse damage layer's invariant: a mask is stored only for a block
/// inside the chunk, only while something of it is left, and never for air.
/// An undamaged block stores nothing; a fully carved block has dropped its
/// mask and become air.
pub open spec fn damage_wf(c: ChunkView) -> bool {
    forall|i: u16| #[trigger] c.damage.contains_key(i) ==> {
        &&& i < 4096
        &&& !all_bytes(c.damage[i].0@, 0)
        &&& c.blocks[i as int] != BlockId(AIR)
    }
}

/// A block position that lands inside the chunk once narrowed to an index.
pub open spec fn in_chunk(x: usize, y: usize, z: usize) -> bool {
    local_index_raw(x as int, y as int, z as int) <= usize::MAX
        && (local_index_raw(x as int, y as int, z as int) as u16) < 4096
}

impl Chunk {
    /// An empty, all-air chunk, not yet generated, with a stale mesh.
    pub fn new(pos: ChunkPos) -> (r: Chunk)
        ensures
            r@.pos == pos,
            r@.blocks == Seq::new(4096, |i: int| BlockId(AIR)),
            r@.damage == Map::<u16, SubMask>::empty(),
            r@.dirty,
            !r@.generated,
            damage_wf(r@),
    {
        let r = Chunk {
            pos,
            blocks: [BlockId(AIR); 4096],
            damage: HashMap::new(),
            dirty: true,
            generated: false,
        };
        assert(r.blocks@ =~= Seq::new(4096, |i: int| BlockId(AIR)));
        r
    }

    /// Every chunk holds exactly [`CHUNK_VOL`] blocks.
    pub proof fn lemma_block_count(&self)
        ensures
            self@.blocks.len() == CHUNK_VOL,
    {
    }

    pub fn get(&self, x: usize, y: usize, z: usize) -> (r: BlockId)
        requires
            in_chunk(x, y, z),
        ensures
            r == self@.blocks[local_index_raw(x as int, y as int, z as int) as u16 as int],
    {
        self.blocks[local_index(x, y, z) as usize]
    }

    /// Set a block. Changing a block's identity resets any carving on it.
    pub fn set(&mut self, x: usize, y: usize, z: usize, id: BlockId)
        requires
            in_chunk(x, y, z),
        ensures
            ({
                let i = local_index_raw(x as int, y as int, z as int) as u16;
                &&& final(self)@.blocks == old(self)@.blocks.update(i as int, id)
                &&& final(self)@.damage == old(self)@.damage.remove(i)
                &&& final(self)@.dirty
                &&& final(self)@.pos == old(self)@.pos
                &&& final(self)@.generated == old(self)@.generated
            }),
            damage_wf(old(self)@) ==> damage_wf(final(self)@),
    {
        let ghost before = self@;
        let i = local_index(x, y, z);
        self.blocks[i as usize] = id;
        self.damage.remove(&i);
        self.dirty = true;
        proof {
            if damage_wf(before) {
                assert forall|k: u16| #[trigger] self@.damage.contains_key(k) implies {
                    &&& k < 4096
                    &&& !all_bytes(self@.damage[k].0@, 0)
                    &&& self@.blocks[k as int] != BlockId(AIR)
                } by {
                    assert(before.damage.contains_key(k) && k != i);
                }
            }
        }
    }

    /// Raw block array, for the mesher and for serialization.
    pub fn blocks(&self) -> (r: &[BlockId; 4096])
        ensures
            r@ == self@.blocks,
    {
        &self.blocks
    }

    /// The carve mask for a block, or `None` if it is undamaged.
    pub fn mask(&self, x: usize, y: usize, z: usize) -> (r: Option<&SubMask>)
        requires
            local_index_raw(x as int, y as int, z as int) <= usize::MAX,
        ensures
            ({
                let i = local_index_raw(x as int, y as int, z as int) as u16;
                match r {
                    Some(m) => self@.damage.contains_key(i) && *m == self@.damage[i],
                    None => !self@.damage.contains_key(i),
                }
            }),
    {
        self.damage.get(&local_index(x, y, z))
    }

    pub fn damage_map(&self) -> (r: &HashMap<u16, SubMask>)
        ensures
            r@ == self@.damage,
    {
        &self.damage
    }

    /// True when any block in this chunk is partially carved.
    pub fn has_damage(&self) -> (r: bool)
        ensures
            r == !self@.damage.is_empty(),
    {
        !self.damage.is_empty()
    }

    /// Clear a single sub-voxel. Returns true if the block was fully
    /// destroyed, in which case it becomes air and its mask is dropped.
    /// Carving air does nothing.
    pub fn carve(&mut self, x: usize, y: usize, z: usize, sx: usize, sy: usize, sz: usize) -> (r: bool)
        requires
            in_chunk(x, y, z),
            sub_index(sx as int, sy as int, sz as int) < 512,
        ensures
            ({
                let i = local_index_raw(x as int, y as int, z as int) as u16;
                let s = sub_index(sx as int, sy as int, sz as int);
                let before = if old(self)@.damage.contains_key(i) {
                    old(self)@.damage[i].0@
                } else {
                    Seq::new(64, |j: int| 0xFFu8)
                };
                let after = mask_cleared(before, s);
                &&& final(self)@.pos == old(self)@.pos
                &&& final(self)@.generated == old(self)@.generated
                &&& if old(self)@.blocks[i as int].0 == AIR {
                    !r && final(self)@ == old(self)@
                } else if all_bytes(after, 0) {
                    &&& r
                    &&& final(self)@.dirty
                    &&& final(self)@.blocks == old(self)@.blocks.update(i as int, BlockId(AIR))
                    &&& final(self)@.damage == old(self)@.damage.remove(i)
                } else {
                    &&& !r
                    &&& final(self)@.dirty
                    &&& final(self)@.blocks == old(self)@.blocks
                    &&& final(self)@.damage.dom() == old(self)@.damage.dom().insert(i)
                    &&& final(self)@.damage[i].0@ == after
                    &&& forall|k: u16| k != i && old(self)@.damage.contains_key(k) ==> #[trigger] final(self)@.damage[k] == old(self)@.damage[k]
                }
            }),
            damage_wf(old(self)@) ==> damage_wf(final(self)@),
    {
        let ghost before = self@;
        let i = local_index(x, y, z);
        if self.blocks[i as usize].is_air() {
            return false;
        }
        let mut mask = match self.damage.get(&i) {
            Some(m) => *m,
            None => {
                let f = SubMask::full();
                assert(f.0@ =~= Seq::new(64, |j: int| 0xFFu8));
                f
            },
        };
        mask.clear(sx, sy, sz);
        self.dirty = true;
        if mask.is_empty() {
            self.damage.remove(&i);
            self.blocks[i as usize] = BlockId(AIR);
            proof {
                if damage_wf(before) {
                    assert forall|k: u16| #[trigger] self@.damage.contains_key(k) implies {
                        &&& k < 4096
                        &&& !all_bytes(self@.damage[k].0@, 0)
                        &&& self@.blocks[k as int] != BlockId(AIR)
                    } by {
                        assert(before.damage.contains_key(k) && k != i);
                    }
                }
            }
            return true;
        }
        self.damage.insert(i, mask);
        proof {
            if damage_wf(before) {
                assert forall|k: u16| #[trigger] self@.damage.contains_key(k) implies {
                    &&& k < 4096
                    &&& !all_bytes(self@.damage[k].0@, 0)
                    &&& self@.blocks[k as int] != BlockId(AIR)
                } by {
                    if k != i {
                        assert(before.damage.contains_key(k));
                    }
                }
            }
        }
        false
    }
}

} // verus!
