//! What a save holds, and the durable record of the player's world edits.
//!
//! Terrain is deterministic from the seed, so a save stores the seed and only
//! the player's edits on top of it. The record of those edits is
//! [`ChangeTracker`]: the main loop tells it about every edit as it happens,
//! the tracker is the durable record, and [`ChangeTracker::replay_chunk`] puts
//! the edits back when a chunk streams in again.
//!
//! Two things are not derivable from the seed plus the edit log: the mobs
//! around the player and the contents of containers. Both are written too,
//! from format version 2 on. Floating-point quantities (positions, angles,
//! health, furnace timings) are carried here as their IEEE-754 bit patterns,
//! which is exactly what the file stores.
use vstd::prelude::*;
use crate::block::{BlockId, AIR};
use crate::chunk::{
    all_bytes, local_index_raw, mask_cleared, mask_solid, sub_index, SubMask, MASK_BYTES,
};
use crate::inventory::{Inventory, ItemStack};
use crate::mob::MobKind;
use crate::ordered_map::{sorted_keys, OrderedMap};
use vstd::string::StringExecFns;

verus! {

/// File magic, `"LDST"`. Loading anything else is refused outright.
pub const MAGIC: [u8; 4] = [76, 68, 83, 84];

/// Current format version: what a save is written as.
pub const VERSION: u32 = 2;

/// Oldest format version still read.
///
/// * 1: seed, player, inventory, world edits.
/// * 2: adds the mob and container sections.
pub const MIN_VERSION: u32 = 1;

/// An undamaged block: every sub-voxel solid.
pub const FULL_MASK: [u8; MASK_BYTES] = [
    0xFF, 0xFF, 0xFF, 0xFF, 0xFF, 0xFF, 0xFF, 0xFF, 0xFF, 0xFF, 0xFF, 0xFF, 0xFF, 0xFF, 0xFF, 0xFF,
    0xFF, 0xFF, 0xFF, 0xFF, 0xFF, 0xFF, 0xFF, 0xFF, 0xFF, 0xFF, 0xFF, 0xFF, 0xFF, 0xFF, 0xFF, 0xFF,
    0xFF, 0xFF, 0xFF, 0xFF, 0xFF, 0xFF, 0xFF, 0xFF, 0xFF, 0xFF, 0xFF, 0xFF, 0xFF, 0xFF, 0xFF, 0xFF,
    0xFF, 0xFF, 0xFF, 0xFF, 0xFF, 0xFF, 0xFF, 0xFF, 0xFF, 0xFF, 0xFF, 0xFF, 0xFF, 0xFF, 0xFF, 0xFF,
];

/// The bytes of [`MAGIC`].
pub open spec fn magic_bytes() -> Seq<u8> {
    seq![76u8, 68u8, 83u8, 84u8]
}

// --- sub-voxel mask helpers ----------------------------------------------------
//
// Bit layout matches `chunk::SubMask` exactly: bit `(y * 8 + z) * 8 + x`,
// little-endian within each byte.

/// True when that sub-voxel is still solid.
pub fn mask_get(mask: &[u8; MASK_BYTES], sx: usize, sy: usize, sz: usize) -> (r: bool)
    requires
        sub_index(sx as int, sy as int, sz as int) < 512,
    ensures
        r == mask_solid(mask@, sub_index(sx as int, sy as int, sz as int)),
{
    SubMask(*mask).get(sx, sy, sz)
}

/// Carve one sub-voxel out of a mask.
pub fn mask_clear(mask: &mut [u8; MASK_BYTES], sx: usize, sy: usize, sz: usize)
    requires
        sub_index(sx as int, sy as int, sz as int) < 512,
    ensures
        final(mask)@ == mask_cleared(old(mask)@, sub_index(sx as int, sy as int, sz as int)),
{
    let mut m = SubMask(*mask);
    m.clear(sx, sy, sz);
    *mask = m.0;
}

/// True when nothing solid is left.
pub fn mask_is_empty(mask: &[u8; MASK_BYTES]) -> (r: bool)
    ensures
        r == all_bytes(mask@, 0),
{
    SubMask(*mask).is_empty()
}

// --- chunk-local addressing ----------------------------------------------------

/// A chunk position in chunk space.
pub type ChunkKey = (i32, i32, i32);

/// A block position in world space.
pub type BlockPos = (i32, i32, i32);

/// The chunk coordinate a block coordinate falls in (floor division).
pub open spec fn chunk_coord(v: i32) -> i32 {
    (v / 16) as i32
}

/// A block coordinate's offset within its chunk, `0..16`.
pub open spec fn local_coord(v: i32) -> int {
    (v as int) % 16
}

/// The chunk holding a block.
pub open spec fn locate_key(x: i32, y: i32, z: i32) -> ChunkKey {
    (chunk_coord(x), chunk_coord(y), chunk_coord(z))
}

/// The index of a block within its chunk.
pub open spec fn locate_index(x: i32, y: i32, z: i32) -> u16 {
    local_index_raw(local_coord(x), local_coord(y), local_coord(z)) as u16
}

/// World coordinates of an index within a chunk, before narrowing.
pub open spec fn unlocate_raw(c: ChunkKey, index: u16) -> (int, int, int) {
    (c.0 * 16 + index % 16, c.1 * 16 + index / 256, c.2 * 16 + (index / 16) % 16)
}

/// Whether [`unlocate`] fits the result in `i32`.
pub open spec fn unlocate_fits(c: ChunkKey, index: u16) -> bool {
    let p = unlocate_raw(c, index);
    &&& i32::MIN <= c.0 * 16 <= i32::MAX
    &&& i32::MIN <= c.1 * 16 <= i32::MAX
    &&& i32::MIN <= c.2 * 16 <= i32::MAX
    &&& i32::MIN <= p.0 <= i32::MAX
    &&& i32::MIN <= p.1 <= i32::MAX
    &&& i32::MIN <= p.2 <= i32::MAX
}

/// World coordinates of an index within a chunk.
pub open spec fn unlocate_spec(c: ChunkKey, index: u16) -> BlockPos {
    let p = unlocate_raw(c, index);
    (p.0 as i32, p.1 as i32, p.2 as i32)
}

fn split(v: i32) -> (r: (i32, usize))
    ensures
        r.0 == chunk_coord(v),
        r.1 == local_coord(v),
{
    let c = match v.checked_div_euclid(16) {
        Some(c) => c,
        None => 0,
    };
    let l = match v.checked_rem_euclid(16) {
        Some(l) => l,
        None => 0,
    };
    (c, l as usize)
}

/// Chunk key and index within the chunk of a world block coordinate.
pub fn locate(x: i32, y: i32, z: i32) -> (r: (ChunkKey, u16))
    ensures
        r.0 == locate_key(x, y, z),
        r.1 == locate_index(x, y, z),
        r.1 < 4096,
{
    let (cx, lx) = split(x);
    let (cy, ly) = split(y);
    let (cz, lz) = split(z);
    ((cx, cy, cz), ((ly * 16 + lz) * 16 + lx) as u16)
}

/// World block coordinate of an index within a chunk.
pub fn unlocate(chunk: ChunkKey, index: u16) -> (r: BlockPos)
    requires
        unlocate_fits(chunk, index),
    ensures
        r == unlocate_spec(chunk, index),
{
    let lx = (index % 16) as i32;
    let lz = ((index / 16) % 16) as i32;
    let ly = (index / 256) as i32;
    (chunk.0 * 16 + lx, chunk.1 * 16 + ly, chunk.2 * 16 + lz)
}

/// Locating a block and turning the result back into coordinates gives the
/// block back, for every block coordinate, negative ones included.
pub proof fn lemma_unlocate_locate(x: i32, y: i32, z: i32)
    ensures
        unlocate_fits(locate_key(x, y, z), locate_index(x, y, z)),
        unlocate_spec(locate_key(x, y, z), locate_index(x, y, z)) == (x, y, z),
        locate_index(x, y, z) < 4096,
{
    let lx = local_coord(x);
    let ly = local_coord(y);
    let lz = local_coord(z);
    let i = (ly * 16 + lz) * 16 + lx;
    assert(i % 16 == lx && (i / 16) % 16 == lz && i / 256 == ly) by (nonlinear_arith)
        requires
            0 <= lx < 16,
            0 <= ly < 16,
            0 <= lz < 16,
            i == (ly * 16 + lz) * 16 + lx,
    ;
}

/// Every index inside a chunk names a block that locates back to that chunk
/// and that index.
pub proof fn lemma_locate_unlocate(c: ChunkKey, index: u16)
    requires
        index < 4096,
        unlocate_fits(c, index),
    ensures
        locate_key(unlocate_spec(c, index).0, unlocate_spec(c, index).1, unlocate_spec(c, index).2)
            == c,
        locate_index(unlocate_spec(c, index).0, unlocate_spec(c, index).1, unlocate_spec(c, index).2)
            == index,
{
    let i = index as int;
    let lx = i % 16;
    let ly = i / 256;
    let lz = (i / 16) % 16;
    assert((ly * 16 + lz) * 16 + lx == i) by (nonlinear_arith)
        requires
            0 <= i < 4096,
            lx == i % 16,
            ly == i / 256,
            lz == (i / 16) % 16,
    ;
}

// --- the world-write trait -------------------------------------------------------

/// The only thing replaying needs from the engine's world: the ability to put
/// edits back. The engine implements it for its world in a few delegating
/// lines; nothing here names a concrete world type.
pub trait WorldEdit {
    /// The block the world holds at a position.
    spec fn world_block(&self, p: BlockPos) -> BlockId;

    /// Whether sub-voxel `s` (numbered as [`sub_index`] numbers them) of the
    /// block at `p` is still there, not carved away.
    spec fn world_solid(&self, p: BlockPos, s: u16) -> bool;

    /// Set a block, as the world's own `set_block` does: the block at the
    /// position becomes `id`, a solid one with nothing carved out of it, and
    /// no other position changes.
    fn set_block_at(&mut self, x: i32, y: i32, z: i32, id: BlockId)
        ensures
            final(self).world_block((x, y, z)) == id,
            id != BlockId(AIR) ==> forall|s: u16| 0 <= s < 512 ==> #[trigger] final(self).world_solid((x, y, z), s),
            forall|q: BlockPos|
                q != (x, y, z) ==> #[trigger] final(self).world_block(q) == old(self).world_block(q),
            forall|q: BlockPos, s: u16|
                q != (x, y, z) ==> #[trigger] final(self).world_solid(q, s) == old(self).world_solid(q, s),
    ;

    /// Clear one sub-voxel, as the world's own `carve` does. Returns true if
    /// that emptied the block entirely, which leaves air in its place. The
    /// other sub-voxels, and every other position, stay as they were.
    fn carve_at(&mut self, x: i32, y: i32, z: i32, sx: usize, sy: usize, sz: usize) -> (r: bool)
        requires
            sx < 8,
            sy < 8,
            sz < 8,
        ensures
            !final(self).world_solid((x, y, z), sub_index(sx as int, sy as int, sz as int) as u16),
            forall|s: u16|
                s != sub_index(sx as int, sy as int, sz as int) ==> #[trigger] final(self).world_solid(
                    (x, y, z),
                    s,
                ) == old(self).world_solid((x, y, z), s),
            final(self).world_block((x, y, z)) == (if r {
                BlockId(AIR)
            } else {
                old(self).world_block((x, y, z))
            }),
            r ==> forall|s: u16| 0 <= s < 512 ==> !#[trigger] final(self).world_solid((x, y, z), s),
            forall|q: BlockPos|
                q != (x, y, z) ==> #[trigger] final(self).world_block(q) == old(self).world_block(q),
            forall|q: BlockPos, s: u16|
                q != (x, y, z) ==> #[trigger] final(self).world_solid(q, s) == old(self).world_solid(q, s),
    ;

    /// Install a whole carve mask at once: every sub-voxel the mask has
    /// cleared is carved away, every sub-voxel it keeps that was there is
    /// still there, the block stays or, emptied, turns to air, and no other
    /// position changes.
    ///
    /// The default replays `carve_at` for every cleared sub-voxel, in
    /// `y`, then `z`, then `x` order, and meets this against any world that
    /// meets `carve_at`'s contract, at up to 512 calls per damaged block.
    /// Override it if chunk storage can take a mask directly; an override
    /// may also restore kept sub-voxels that were missing.
    fn set_mask_at(&mut self, x: i32, y: i32, z: i32, mask: &[u8; MASK_BYTES])
        ensures
            forall|s: u16|
                0 <= s < 512 && !mask_solid(mask@, s as int) ==> !#[trigger] final(self).world_solid((x, y, z), s),
            forall|s: u16|
                0 <= s < 512 && mask_solid(mask@, s as int) && old(self).world_solid((x, y, z), s)
                    ==> #[trigger] final(self).world_solid((x, y, z), s),
            final(self).world_block((x, y, z)) == old(self).world_block((x, y, z))
                || final(self).world_block((x, y, z)) == BlockId(AIR),
            final(self).world_block((x, y, z)) == BlockId(AIR) && old(self).world_block((x, y, z)) != BlockId(
                AIR,
            ) ==> forall|s: u16| 0 <= s < 512 ==> !#[trigger] final(self).world_solid((x, y, z), s),
            forall|q: BlockPos|
                q != (x, y, z) ==> #[trigger] final(self).world_block(q) == old(self).world_block(q),
            forall|q: BlockPos, s: u16|
                q != (x, y, z) ==> #[trigger] final(self).world_solid(q, s) == old(self).world_solid(q, s),
    {
        let mut sy: usize = 0;
        while sy < 8
            invariant
                sy <= 8,
                forall|s: u16|
                    0 <= s < sy * 64 && !mask_solid(mask@, s as int) ==> !#[trigger] self.world_solid((x, y, z), s),
                self.world_block((x, y, z)) == old(self).world_block((x, y, z)) || (self.world_block((x, y, z))
                    == BlockId(AIR) && forall|s: u16| 0 <= s < 512 ==> !#[trigger] self.world_solid((x, y, z), s)),
                forall|s: u16|
                    0 <= s < 512 && mask_solid(mask@, s as int) && old(self).world_solid((x, y, z), s)
                        ==> #[trigger] self.world_solid((x, y, z), s),
                forall|q: BlockPos|
                    q != (x, y, z) ==> #[trigger] self.world_block(q) == old(self).world_block(q),
                forall|q: BlockPos, s: u16|
                    q != (x, y, z) ==> #[trigger] self.world_solid(q, s) == old(self).world_solid(q, s),
            decreases 8 - sy,
        {
            let mut sz: usize = 0;
            while sz < 8
                invariant
                    sy < 8,
                    sz <= 8,
                    forall|s: u16|
                        0 <= s < sy * 64 + sz * 8 && !mask_solid(mask@, s as int) ==> !#[trigger] self.world_solid(
                            (x, y, z),
                            s,
                        ),
                    self.world_block((x, y, z)) == old(self).world_block((x, y, z)) || (self.world_block((x, y, z))
                        == BlockId(AIR) && forall|s: u16| 0 <= s < 512 ==> !#[trigger] self.world_solid((x, y, z), s)),
                    forall|s: u16|
                        0 <= s < 512 && mask_solid(mask@, s as int) && old(self).world_solid((x, y, z), s)
                            ==> #[trigger] self.world_solid((x, y, z), s),
                    forall|q: BlockPos|
                        q != (x, y, z) ==> #[trigger] self.world_block(q) == old(self).world_block(q),
                    forall|q: BlockPos, s: u16|
                        q != (x, y, z) ==> #[trigger] self.world_solid(q, s) == old(self).world_solid(q, s),
                decreases 8 - sz,
            {
                let mut sx: usize = 0;
                while sx < 8
                    invariant
                        sy < 8,
                        sz < 8,
                        sx <= 8,
                        forall|s: u16|
                            0 <= s < sy * 64 + sz * 8 + sx && !mask_solid(mask@, s as int) ==> !#[trigger] self.world_solid(
                                (x, y, z),
                                s,
                            ),
                        self.world_block((x, y, z)) == old(self).world_block((x, y, z)) || (self.world_block((x, y, z))
                            == BlockId(AIR) && forall|s: u16| 0 <= s < 512 ==> !#[trigger] self.world_solid((x, y, z), s)),
                        forall|s: u16|
                            0 <= s < 512 && mask_solid(mask@, s as int) && old(self).world_solid((x, y, z), s)
                                ==> #[trigger] self.world_solid((x, y, z), s),
                        forall|q: BlockPos|
                            q != (x, y, z) ==> #[trigger] self.world_block(q) == old(self).world_block(q),
                        forall|q: BlockPos, s: u16|
                            q != (x, y, z) ==> #[trigger] self.world_solid(q, s) == old(self).world_solid(q, s),
                    decreases 8 - sx,
                {
                    if !mask_get(mask, sx, sy, sz) {
                        self.carve_at(x, y, z, sx, sy, sz);
                    }
                    sx = sx + 1;
                }
                sz = sz + 1;
            }
            sy = sy + 1;
        }
    }
}

// --- the edit record -------------------------------------------------------------

/// Everything the player changed inside one chunk.
#[derive(Debug, PartialEq, Eq)]
pub struct ChunkDelta {
    /// Blocks whose identity was changed, by index within the chunk.
    pub blocks: OrderedMap<u16, BlockId>,
    /// Partially carved blocks, by index within the chunk. A block that is
    /// fully carved leaves this map and appears in `blocks` as air.
    pub masks: OrderedMap<u16, [u8; MASK_BYTES]>,
}

/// The abstract contents of a [`ChunkDelta`].
pub struct DeltaView {
    pub blocks: Map<u16, BlockId>,
    pub masks: Map<u16, Seq<u8>>,
}

impl View for ChunkDelta {
    type V = DeltaView;

    open spec fn view(&self) -> DeltaView {
        DeltaView {
            blocks: self.blocks@,
            masks: self.masks@.map_values(|m: [u8; MASK_BYTES]| m@),
        }
    }
}

/// A delta with no edits.
pub open spec fn empty_delta() -> DeltaView {
    DeltaView { blocks: Map::empty(), masks: Map::empty() }
}

/// A delta as the tracker keeps it: both maps sorted, every index inside the
/// chunk, every mask still holding something, and at least one edit.
pub open spec fn delta_wf(d: ChunkDelta) -> bool {
    &&& d.blocks.wf()
    &&& d.masks.wf()
    &&& forall|k: u16| #[trigger] d.blocks@.contains_key(k) ==> k < 4096
    &&& forall|k: u16| #[trigger] d.masks@.contains_key(k) ==> k < 4096 && !all_bytes(d.masks@[k]@, 0)
    &&& !(d.blocks@ == Map::<u16, BlockId>::empty() && d.masks@ == Map::<u16, [u8; MASK_BYTES]>::empty())
}

impl Clone for ChunkDelta {
    /// An identical delta.
    fn clone(&self) -> (r: Self)
        ensures
            r.blocks.entries() == self.blocks.entries(),
            r.masks.entries() == self.masks.entries(),
            r.blocks@ == self.blocks@,
            r.masks@ == self.masks@,
    {
        ChunkDelta { blocks: self.blocks.copied(), masks: self.masks.copied() }
    }
}

impl ChunkDelta {
    /// A delta with no edits.
    pub fn new() -> (r: ChunkDelta)
        ensures
            r.blocks.wf(),
            r.masks.wf(),
            r@ == empty_delta(),
            r.blocks.entries().len() == 0,
            r.masks.entries().len() == 0,
    {
        let r = ChunkDelta { blocks: OrderedMap::new(), masks: OrderedMap::new() };
        assert(r@.masks =~= Map::<u16, Seq<u8>>::empty());
        r
    }

    /// True when there are no edits at all.
    pub fn is_empty(&self) -> (r: bool)
        ensures
            r == (self.blocks@ == Map::<u16, BlockId>::empty() && self.masks@ == Map::<
                u16,
                [u8; MASK_BYTES],
            >::empty()),
    {
        self.blocks.is_empty() && self.masks.is_empty()
    }
}

/// The tracker's abstract contents: the edits of every touched chunk.
pub type TrackerView = Map<ChunkKey, DeltaView>;

/// The delta recorded for a chunk, or an empty one.
pub open spec fn delta_or_empty(t: TrackerView, key: ChunkKey) -> DeltaView {
    if t.contains_key(key) {
        t[key]
    } else {
        empty_delta()
    }
}

/// The durable record of every player edit, and the only thing a save writes
/// about the world.
#[derive(Debug, PartialEq, Eq)]
pub struct ChangeTracker {
    chunks: OrderedMap<ChunkKey, ChunkDelta>,
}

impl View for ChangeTracker {
    type V = TrackerView;

    open spec fn view(&self) -> TrackerView {
        self.chunk_map().map_values(|d: ChunkDelta| d@)
    }
}

/// One world write that replaying a chunk performs.
#[derive(Copy, Clone, Debug, PartialEq, Eq)]
pub enum EditOp {
    SetBlock { x: i32, y: i32, z: i32, id: BlockId },
    SetMask { x: i32, y: i32, z: i32, mask: [u8; MASK_BYTES] },
}

/// The writes that restore one chunk: every changed block in index order,
/// then every carve mask in index order.
pub open spec fn chunk_ops(key: ChunkKey, d: ChunkDelta) -> Seq<EditOp> {
    block_ops(key, d) + mask_ops(key, d)
}

/// The block writes of [`chunk_ops`], in index order.
pub open spec fn block_ops(key: ChunkKey, d: ChunkDelta) -> Seq<EditOp> {
    d.blocks.entries().map_values(|e: (u16, BlockId)| block_op(key, e))
}

/// The mask writes of [`chunk_ops`], in index order.
pub open spec fn mask_ops(key: ChunkKey, d: ChunkDelta) -> Seq<EditOp> {
    d.masks.entries().map_values(|e: (u16, [u8; MASK_BYTES])| mask_op(key, e))
}

/// The write that restores one changed block.
pub open spec fn block_op(key: ChunkKey, e: (u16, BlockId)) -> EditOp {
    let p = unlocate_spec(key, e.0);
    EditOp::SetBlock { x: p.0, y: p.1, z: p.2, id: e.1 }
}

/// The write that restores one carve mask.
pub open spec fn mask_op(key: ChunkKey, e: (u16, [u8; MASK_BYTES])) -> EditOp {
    let p = unlocate_spec(key, e.0);
    EditOp::SetMask { x: p.0, y: p.1, z: p.2, mask: e.1 }
}

/// Every block position a chunk key can name fits in `i32`.
pub open spec fn key_in_range(key: ChunkKey) -> bool {
    &&& -134217728 <= key.0 <= 134217727
    &&& -134217728 <= key.1 <= 134217727
    &&& -134217728 <= key.2 <= 134217727
}

/// The position an edit writes.
pub open spec fn op_pos(op: EditOp) -> BlockPos {
    match op {
        EditOp::SetBlock { x, y, z, .. } => (x, y, z),
        EditOp::SetMask { x, y, z, .. } => (x, y, z),
    }
}

/// Some edit of `ops` writes position `p`.
pub open spec fn writes_to(ops: Seq<EditOp>, p: BlockPos) -> bool {
    exists|i: int| 0 <= i < ops.len() && op_pos(#[trigger] ops[i]) == p
}

/// Some edit of `ops` installs a carve mask at `p`.
pub open spec fn masks_at(ops: Seq<EditOp>, p: BlockPos) -> bool {
    exists|i: int| 0 <= i < ops.len() && (#[trigger] ops[i]) is SetMask && op_pos(ops[i]) == p
}

/// Two edits of `ops` write one position only as a block write followed by
/// a mask write.
pub open spec fn ops_ordered(ops: Seq<EditOp>) -> bool {
    forall|i: int, j: int|
        0 <= i < j < ops.len() && op_pos(#[trigger] ops[i]) == op_pos(#[trigger] ops[j]) ==> ops[i] is SetBlock
            && ops[j] is SetMask
}

/// Some edit of `ops` writes a block at `p`.
pub open spec fn sets_at(ops: Seq<EditOp>, p: BlockPos) -> bool {
    exists|i: int| 0 <= i < ops.len() && (#[trigger] ops[i]) is SetBlock && op_pos(ops[i]) == p
}

/// Some edit of `ops` writes a block other than air at `p`.
pub open spec fn sets_solid_at(ops: Seq<EditOp>, p: BlockPos) -> bool {
    exists|i: int|
        0 <= i < ops.len() && (#[trigger] ops[i] matches EditOp::SetBlock { id, .. } && id != BlockId(AIR))
            && op_pos(ops[i]) == p
}

/// Every mask `ops` installs keeps some sub-voxel.
pub open spec fn masks_nonempty(ops: Seq<EditOp>) -> bool {
    forall|i: int| 0 <= i < ops.len() ==> (#[trigger] ops[i] matches EditOp::SetMask { mask, .. } ==> !all_bytes(mask@, 0))
}

/// What a world `w`, reached from `before`, shows of one edit among `ops`
/// once they are all made.
///
/// A block write shows its block; with no mask over it, a block other than
/// air is whole. A mask write shows every sub-voxel the mask clears as
/// carved away. Over a block written as something other than air, it shows
/// every sub-voxel the mask keeps as there: the block holds exactly the
/// mask. Over a block no edit writes, the kept sub-voxels that were there
/// stay, and the block stays unless it was emptied into air.
pub open spec fn shows_op<W: WorldEdit>(before: W, w: W, ops: Seq<EditOp>, op: EditOp) -> bool {
    match op {
        EditOp::SetBlock { x, y, z, id } => {
            &&& w.world_block((x, y, z)) == id
            &&& !masks_at(ops, (x, y, z)) && id != BlockId(AIR) ==> forall|s: u16|
                0 <= s < 512 ==> #[trigger] w.world_solid((x, y, z), s)
        },
        EditOp::SetMask { x, y, z, mask } => {
            &&& forall|s: u16|
                0 <= s < 512 && !mask_solid(mask@, s as int) ==> !#[trigger] w.world_solid((x, y, z), s)
            &&& sets_solid_at(ops, (x, y, z)) ==> forall|s: u16|
                0 <= s < 512 && mask_solid(mask@, s as int) ==> #[trigger] w.world_solid((x, y, z), s)
            &&& !sets_at(ops, (x, y, z)) ==> {
                &&& forall|s: u16|
                    0 <= s < 512 && mask_solid(mask@, s as int) && before.world_solid((x, y, z), s)
                        ==> #[trigger] w.world_solid((x, y, z), s)
                &&& w.world_block((x, y, z)) == before.world_block((x, y, z)) || (w.world_block((x, y, z))
                    == BlockId(AIR) && forall|s: u16| 0 <= s < 512 ==> !#[trigger] w.world_solid((x, y, z), s))
            }
        },
    }
}

/// `after` is `before` with the edits of `ops` made: every edit shows, and
/// every position no edit writes is as it was.
pub open spec fn shows_writes<W: WorldEdit>(before: W, after: W, ops: Seq<EditOp>) -> bool {
    &&& forall|q: BlockPos| !writes_to(ops, q) ==> #[trigger] after.world_block(q) == before.world_block(q)
    &&& forall|q: BlockPos, s: u16|
        !writes_to(ops, q) ==> #[trigger] after.world_solid(q, s) == before.world_solid(q, s)
    &&& forall|i: int| 0 <= i < ops.len() ==> shows_op(before, after, ops, #[trigger] ops[i])
}

/// The edits of a run of chunk records, chunk after chunk.
pub open spec fn entries_ops(es: Seq<(ChunkKey, ChunkDelta)>) -> Seq<EditOp>
    decreases es.len(),
{
    if es.len() == 0 {
        Seq::empty()
    } else {
        entries_ops(es.drop_last()) + chunk_ops(es.last().0, es.last().1)
    }
}

/// What edits two runs write, they write together.
proof fn lemma_concat_writes(a: Seq<EditOp>, b: Seq<EditOp>, q: BlockPos)
    ensures
        writes_to(a + b, q) == (writes_to(a, q) || writes_to(b, q)),
        masks_at(a + b, q) == (masks_at(a, q) || masks_at(b, q)),
        sets_at(a + b, q) == (sets_at(a, q) || sets_at(b, q)),
        sets_solid_at(a + b, q) == (sets_solid_at(a, q) || sets_solid_at(b, q)),
{
    let ab = a + b;
    assert forall|i: int| 0 <= i < ab.len() implies #[trigger] ab[i] == (if i < a.len() {
        a[i]
    } else {
        b[i - a.len()]
    }) by {}
    if writes_to(ab, q) {
        let i = choose|i: int| 0 <= i < ab.len() && op_pos(#[trigger] ab[i]) == q;
        if i >= a.len() {
            assert(b[i - a.len()] == ab[i]);
        }
    }
    if writes_to(a, q) {
        let i = choose|i: int| 0 <= i < a.len() && op_pos(#[trigger] a[i]) == q;
        assert(ab[i] == a[i]);
    }
    if writes_to(b, q) {
        let i = choose|i: int| 0 <= i < b.len() && op_pos(#[trigger] b[i]) == q;
        assert(ab[i + a.len()] == b[i]);
    }
    if masks_at(ab, q) {
        let i = choose|i: int| 0 <= i < ab.len() && (#[trigger] ab[i]) is SetMask && op_pos(ab[i]) == q;
        if i >= a.len() {
            assert(b[i - a.len()] == ab[i]);
        }
    }
    if masks_at(a, q) {
        let i = choose|i: int| 0 <= i < a.len() && (#[trigger] a[i]) is SetMask && op_pos(a[i]) == q;
        assert(ab[i] == a[i]);
    }
    if masks_at(b, q) {
        let i = choose|i: int| 0 <= i < b.len() && (#[trigger] b[i]) is SetMask && op_pos(b[i]) == q;
        assert(ab[i + a.len()] == b[i]);
    }
    if sets_at(ab, q) {
        let i = choose|i: int| 0 <= i < ab.len() && (#[trigger] ab[i]) is SetBlock && op_pos(ab[i]) == q;
        if i >= a.len() {
            assert(b[i - a.len()] == ab[i]);
        }
    }
    if sets_at(a, q) {
        let i = choose|i: int| 0 <= i < a.len() && (#[trigger] a[i]) is SetBlock && op_pos(a[i]) == q;
        assert(ab[i] == a[i]);
    }
    if sets_at(b, q) {
        let i = choose|i: int| 0 <= i < b.len() && (#[trigger] b[i]) is SetBlock && op_pos(b[i]) == q;
        assert(ab[i + a.len()] == b[i]);
    }
    if sets_solid_at(ab, q) {
        let i = choose|i: int|
            0 <= i < ab.len() && (#[trigger] ab[i] matches EditOp::SetBlock { id, .. } && id != BlockId(AIR))
                && op_pos(ab[i]) == q;
        if i >= a.len() {
            assert(b[i - a.len()] == ab[i]);
        }
    }
    if sets_solid_at(a, q) {
        let i = choose|i: int|
            0 <= i < a.len() && (#[trigger] a[i] matches EditOp::SetBlock { id, .. } && id != BlockId(AIR))
                && op_pos(a[i]) == q;
        assert(ab[i] == a[i]);
    }
    if sets_solid_at(b, q) {
        let i = choose|i: int|
            0 <= i < b.len() && (#[trigger] b[i] matches EditOp::SetBlock { id, .. } && id != BlockId(AIR))
                && op_pos(b[i]) == q;
        assert(ab[i + a.len()] == b[i]);
    }
}

/// What a single edit writes.
proof fn lemma_single_writes(op: EditOp, q: BlockPos)
    ensures
        writes_to(seq![op], q) == (q == op_pos(op)),
        masks_at(seq![op], q) == (q == op_pos(op) && op is SetMask),
        sets_at(seq![op], q) == (q == op_pos(op) && op is SetBlock),
        sets_solid_at(seq![op], q) == (q == op_pos(op) && (op matches EditOp::SetBlock { id, .. } && id
            != BlockId(AIR))),
{
    let one = seq![op];
    assert(one[0] == op);
}

/// Making no edit leaves the world as it was.
proof fn lemma_shows_nothing<W: WorldEdit>(w: W)
    ensures
        shows_writes(w, w, Seq::<EditOp>::empty()),
{
}

/// Edits made one after the other on positions neither shares show
/// together.
proof fn lemma_shows_compose<W: WorldEdit>(w0: W, w1: W, w2: W, a: Seq<EditOp>, b: Seq<EditOp>)
    requires
        shows_writes(w0, w1, a),
        shows_writes(w1, w2, b),
        forall|q: BlockPos| !(writes_to(a, q) && writes_to(b, q)),
    ensures
        shows_writes(w0, w2, a + b),
        forall|q: BlockPos| #[trigger] writes_to(a + b, q) == (writes_to(a, q) || writes_to(b, q)),
{
    let ab = a + b;
    assert forall|q: BlockPos| #[trigger] writes_to(ab, q) == (writes_to(a, q) || writes_to(b, q)) by {
        lemma_concat_writes(a, b, q);
    }
    assert forall|q: BlockPos, s: u16| !writes_to(ab, q) implies #[trigger] w2.world_solid(q, s)
        == w0.world_solid(q, s) by {
        assert(!writes_to(a, q) && !writes_to(b, q));
    }
    assert forall|q: BlockPos| !writes_to(ab, q) implies #[trigger] w2.world_block(q) == w0.world_block(q) by {
        assert(!writes_to(a, q) && !writes_to(b, q));
    }
    assert forall|i: int| 0 <= i < ab.len() implies shows_op(w0, w2, ab, #[trigger] ab[i]) by {
        if i < a.len() {
            let op = a[i];
            assert(ab[i] == op);
            let q = op_pos(op);
            assert(writes_to(a, q));
            assert(!writes_to(b, q));
            lemma_concat_writes(a, b, q);
            assert(!masks_at(b, q) && !sets_at(b, q) && !sets_solid_at(b, q)) by {
                if masks_at(b, q) {
                    let k = choose|k: int| 0 <= k < b.len() && (#[trigger] b[k]) is SetMask && op_pos(b[k]) == q;
                    assert(writes_to(b, q));
                }
                if sets_at(b, q) {
                    let k = choose|k: int| 0 <= k < b.len() && (#[trigger] b[k]) is SetBlock && op_pos(b[k]) == q;
                    assert(writes_to(b, q));
                }
                if sets_solid_at(b, q) {
                    let k = choose|k: int|
                        0 <= k < b.len() && (#[trigger] b[k] matches EditOp::SetBlock { id, .. } && id != BlockId(
                            AIR,
                        )) && op_pos(b[k]) == q;
                    assert(writes_to(b, q));
                }
            }
            assert(shows_op(w0, w1, a, op));
            assert(w2.world_block(q) == w1.world_block(q));
            assert forall|s: u16| #[trigger] w2.world_solid(q, s) == w1.world_solid(q, s) by {}
        } else {
            let op = b[i - a.len()];
            assert(ab[i] == op);
            let q = op_pos(op);
            assert(writes_to(b, q));
            assert(!writes_to(a, q));
            lemma_concat_writes(a, b, q);
            assert(!masks_at(a, q) && !sets_at(a, q) && !sets_solid_at(a, q)) by {
                if masks_at(a, q) {
                    let k = choose|k: int| 0 <= k < a.len() && (#[trigger] a[k]) is SetMask && op_pos(a[k]) == q;
                    assert(writes_to(a, q));
                }
                if sets_at(a, q) {
                    let k = choose|k: int| 0 <= k < a.len() && (#[trigger] a[k]) is SetBlock && op_pos(a[k]) == q;
                    assert(writes_to(a, q));
                }
                if sets_solid_at(a, q) {
                    let k = choose|k: int|
                        0 <= k < a.len() && (#[trigger] a[k] matches EditOp::SetBlock { id, .. } && id != BlockId(
                            AIR,
                        )) && op_pos(a[k]) == q;
                    assert(writes_to(a, q));
                }
            }
            assert(shows_op(w1, w2, b, op));
            assert(w1.world_block(q) == w0.world_block(q));
            assert forall|s: u16| #[trigger] w1.world_solid(q, s) == w0.world_solid(q, s) by {}
        }
    }
}

/// A world changed as one edit says shows that edit.
proof fn lemma_one_write<W: WorldEdit>(w1: W, w2: W, op: EditOp)
    requires
        forall|q: BlockPos| q != op_pos(op) ==> #[trigger] w2.world_block(q) == w1.world_block(q),
        forall|q: BlockPos, s: u16| q != op_pos(op) ==> #[trigger] w2.world_solid(q, s) == w1.world_solid(q, s),
        op matches EditOp::SetBlock { x, y, z, id } ==> w2.world_block((x, y, z)) == id && (id != BlockId(AIR)
            ==> forall|s: u16| 0 <= s < 512 ==> #[trigger] w2.world_solid((x, y, z), s)),
        op matches EditOp::SetMask { x, y, z, mask } ==> {
            &&& forall|s: u16|
                0 <= s < 512 && !mask_solid(mask@, s as int) ==> !#[trigger] w2.world_solid((x, y, z), s)
            &&& forall|s: u16|
                0 <= s < 512 && mask_solid(mask@, s as int) && w1.world_solid((x, y, z), s)
                    ==> #[trigger] w2.world_solid((x, y, z), s)
            &&& w2.world_block((x, y, z)) == w1.world_block((x, y, z)) || w2.world_block((x, y, z)) == BlockId(AIR)
            &&& w2.world_block((x, y, z)) == BlockId(AIR) && w1.world_block((x, y, z)) != BlockId(AIR)
                ==> forall|s: u16| 0 <= s < 512 ==> !#[trigger] w2.world_solid((x, y, z), s)
        },
    ensures
        shows_writes(w1, w2, seq![op]),
{
    let one = seq![op];
    assert(one[0] == op);
    assert forall|q: BlockPos| #[trigger] writes_to(one, q) == (q == op_pos(op)) by {
        lemma_single_writes(op, q);
    }
    lemma_single_writes(op, op_pos(op));
}

/// One more edit, made on top of those before it, shows with them.
proof fn lemma_shows_step<W: WorldEdit>(w0: W, w1: W, w2: W, ops: Seq<EditOp>, i: int)
    requires
        ops_ordered(ops),
        masks_nonempty(ops),
        0 <= i < ops.len(),
        shows_writes(w0, w1, ops.take(i)),
        shows_writes(w1, w2, seq![ops[i]]),
    ensures
        shows_writes(w0, w2, ops.take(i + 1)),
{
    let a = ops.take(i);
    let b = ops.take(i + 1);
    let op = ops[i];
    let p = op_pos(op);
    let one = seq![op];
    assert(b =~= a + one);
    assert(one[0] == op);
    lemma_single_writes(op, p);
    lemma_concat_writes(a, one, p);
    // Nothing written before `i` at `p` but, when `op` is a mask, one block.
    assert forall|k: int| 0 <= k < a.len() && op_pos(#[trigger] a[k]) == p implies a[k] is SetBlock
        && op is SetMask by {
        assert(a[k] == ops[k]);
        assert(op_pos(ops[k]) == op_pos(ops[i]));
    }
    assert(!masks_at(a, p)) by {
        if masks_at(a, p) {
            let k = choose|k: int| 0 <= k < a.len() && (#[trigger] a[k]) is SetMask && op_pos(a[k]) == p;
        }
    }
    assert(shows_op(w1, w2, one, one[0]));
    assert forall|q: BlockPos| !writes_to(b, q) implies #[trigger] w2.world_block(q) == w0.world_block(q) by {
        lemma_concat_writes(a, one, q);
        lemma_single_writes(op, q);
    }
    assert forall|q: BlockPos, s: u16| !writes_to(b, q) implies #[trigger] w2.world_solid(q, s)
        == w0.world_solid(q, s) by {
        lemma_concat_writes(a, one, q);
        lemma_single_writes(op, q);
    }
    assert forall|j: int| 0 <= j < b.len() implies shows_op(w0, w2, b, #[trigger] b[j]) by {
        if j == i {
            assert(b[j] == op);
            if sets_at(a, p) {
                let k = choose|k: int| 0 <= k < a.len() && (#[trigger] a[k]) is SetBlock && op_pos(a[k]) == p;
                assert(op is SetMask);
                assert(writes_to(a, p));
                assert(shows_op(w0, w1, a, a[k]));
                if let EditOp::SetMask { x, y, z, mask } = op {
                    if sets_solid_at(a, p) {
                        let k2 = choose|k2: int|
                            0 <= k2 < a.len() && (#[trigger] a[k2] matches EditOp::SetBlock { id, .. } && id != BlockId(
                                AIR,
                            )) && op_pos(a[k2]) == p;
                        assert(shows_op(w0, w1, a, a[k2]));
                    }
                }
            } else {
                assert(!writes_to(a, p)) by {
                    if writes_to(a, p) {
                        let k = choose|k: int| 0 <= k < a.len() && op_pos(#[trigger] a[k]) == p;
                    }
                }
                assert(w1.world_block(p) == w0.world_block(p));
                assert forall|s: u16| #[trigger] w1.world_solid(p, s) == w0.world_solid(p, s) by {}
                lemma_concat_writes(a, one, p);
            }
        } else {
            let opj = a[j];
            assert(b[j] == opj);
            assert(opj == ops[j]);
            let q = op_pos(opj);
            assert(writes_to(a, q));
            assert(shows_op(w0, w1, a, a[j]));
            lemma_concat_writes(a, one, q);
            lemma_single_writes(op, q);
            if q != p {
                assert(w2.world_block(q) == w1.world_block(q));
                assert forall|s: u16| #[trigger] w2.world_solid(q, s) == w1.world_solid(q, s) by {}
            } else {
                assert(op_pos(ops[j]) == op_pos(ops[i]));
                assert(opj is SetBlock && op is SetMask);
                if let EditOp::SetMask { x, y, z, mask } = op {
                    if let EditOp::SetBlock { id, .. } = opj {
                        if id != BlockId(AIR) {
                            // The block was whole, and the mask keeps something of it,
                            // so it was not emptied.
                            assert(ops[i] matches EditOp::SetMask { mask, .. } ==> !all_bytes(mask@, 0));
                            crate::chunk::lemma_empty_mask(mask@);
                            let t = choose|t: int| 0 <= t < 512 && #[trigger] mask_solid(mask@, t);
                            let s = t as u16;
                            assert(w1.world_solid(p, s));
                            assert(w2.world_solid(p, s));
                        }
                    }
                }
            }
        }
    }
}

/// The edits of one chunk's record: every position they write lies in that
/// chunk, and two of them write one position only as a block write followed
/// by a mask write.
proof fn lemma_chunk_ops_ordered(key: ChunkKey, d: ChunkDelta)
    requires
        delta_wf(d),
        key_in_range(key),
    ensures
        ops_ordered(chunk_ops(key, d)),
        masks_nonempty(chunk_ops(key, d)),
        forall|q: BlockPos| #[trigger] writes_to(chunk_ops(key, d), q) ==> locate_key(q.0, q.1, q.2) == key,
{
    let eb = d.blocks.entries();
    let em = d.masks.entries();
    let bs = block_ops(key, d);
    let ms = mask_ops(key, d);
    let ops = chunk_ops(key, d);
    let nb = bs.len() as int;
    assert forall|i: int| 0 <= i < ops.len() implies ({
        let k = if i < nb {
            eb[i].0
        } else {
            em[i - nb].0
        };
        &&& k < 4096
        &&& unlocate_fits(key, k)
        &&& op_pos(#[trigger] ops[i]) == unlocate_spec(key, k)
        &&& (i < nb ==> ops[i] is SetBlock)
        &&& (i >= nb ==> ops[i] is SetMask)
        &&& (ops[i] matches EditOp::SetMask { mask, .. } ==> !all_bytes(mask@, 0))
    }) by {
        if i < nb {
            crate::ordered_map::lemma_seq_map_at(eb, i);
            assert(d.blocks@.contains_key(eb[i].0));
            assert(eb[i].0 < 4096);
            assert(ops[i] == bs[i]);
            assert(bs[i] == block_op(key, eb[i]));
        } else {
            crate::ordered_map::lemma_seq_map_at(em, i - nb);
            assert(d.masks@.contains_key(em[i - nb].0));
            assert(em[i - nb].0 < 4096);
            assert(ops[i] == ms[i - nb]);
            assert(ms[i - nb] == mask_op(key, em[i - nb]));
            assert(d.masks@[em[i - nb].0] == em[i - nb].1);
        }
    }
    assert forall|i: int, j: int|
        0 <= i < j < ops.len() && op_pos(#[trigger] ops[i]) == op_pos(#[trigger] ops[j]) implies ops[i] is SetBlock
        && ops[j] is SetMask by {
        let ki = if i < nb {
            eb[i].0
        } else {
            em[i - nb].0
        };
        let kj = if j < nb {
            eb[j].0
        } else {
            em[j - nb].0
        };
        lemma_locate_unlocate(key, ki);
        lemma_locate_unlocate(key, kj);
        assert(ki == kj);
        if j < nb {
            crate::ordered_map::lemma_key_unique(eb, i, j);
        } else if i >= nb {
            crate::ordered_map::lemma_key_unique(em, i - nb, j - nb);
        }
    }
    assert forall|q: BlockPos| #[trigger] writes_to(ops, q) implies locate_key(q.0, q.1, q.2) == key by {
        let i = choose|i: int| 0 <= i < ops.len() && op_pos(#[trigger] ops[i]) == q;
        let k = if i < nb {
            eb[i].0
        } else {
            em[i - nb].0
        };
        lemma_locate_unlocate(key, k);
    }
}

/// A chunk's edits, once made in a world, leave it holding what was
/// recorded: every recorded block is there; a recorded block other than air
/// with no mask is whole; one with a mask holds exactly the sub-voxels the
/// mask keeps; and every sub-voxel a recorded mask clears is carved away.
pub proof fn lemma_replayed_chunk_holds_its_edits<W: WorldEdit>(
    key: ChunkKey,
    d: ChunkDelta,
    before: W,
    after: W,
)
    requires
        delta_wf(d),
        key_in_range(key),
        shows_writes(before, after, chunk_ops(key, d)),
    ensures
        forall|k: u16| #[trigger] d.blocks@.contains_key(k) ==> after.world_block(unlocate_spec(key, k)) == d.blocks@[k],
        forall|k: u16, s: u16|
            d.blocks@.contains_key(k) && d.blocks@[k] != BlockId(AIR) && !d.masks@.contains_key(k) && 0 <= s < 512
                ==> #[trigger] after.world_solid(unlocate_spec(key, k), s),
        forall|k: u16, s: u16|
            d.blocks@.contains_key(k) && d.blocks@[k] != BlockId(AIR) && d.masks@.contains_key(k) && 0 <= s < 512
                ==> #[trigger] after.world_solid(unlocate_spec(key, k), s) == mask_solid(d.masks@[k]@, s as int),
        forall|k: u16, s: u16|
            d.masks@.contains_key(k) && 0 <= s < 512 && !mask_solid(d.masks@[k]@, s as int) ==> !#[trigger] after.world_solid(
                unlocate_spec(key, k),
                s,
            ),
{
    let eb = d.blocks.entries();
    let em = d.masks.entries();
    let bs = block_ops(key, d);
    let ms = mask_ops(key, d);
    let ops = chunk_ops(key, d);
    let nb = bs.len() as int;
    assert forall|k: u16| #[trigger] d.blocks@.contains_key(k) implies {
        let i = crate::ordered_map::index_of_key(eb, k);
        &&& 0 <= i < nb
        &&& ops[i] == (EditOp::SetBlock {
            x: unlocate_spec(key, k).0,
            y: unlocate_spec(key, k).1,
            z: unlocate_spec(key, k).2,
            id: d.blocks@[k],
        })
    } by {
        let i = crate::ordered_map::index_of_key(eb, k);
        crate::ordered_map::lemma_seq_map_at(eb, i);
        assert(ops[i] == bs[i]);
    }
    assert forall|k: u16| #[trigger] d.masks@.contains_key(k) implies {
        let j = crate::ordered_map::index_of_key(em, k);
        &&& 0 <= j < ms.len()
        &&& ops[nb + j] == (EditOp::SetMask {
            x: unlocate_spec(key, k).0,
            y: unlocate_spec(key, k).1,
            z: unlocate_spec(key, k).2,
            mask: d.masks@[k],
        })
    } by {
        let j = crate::ordered_map::index_of_key(em, k);
        crate::ordered_map::lemma_seq_map_at(em, j);
        assert(ops[nb + j] == ms[j]);
    }
    assert forall|k: u16| d.blocks@.contains_key(k) implies after.world_block(unlocate_spec(key, k))
        == d.blocks@[k] by {
        let i = crate::ordered_map::index_of_key(eb, k);
        assert(shows_op(before, after, ops, ops[i]));
    }
    assert forall|k: u16, s: u16|
        d.blocks@.contains_key(k) && d.blocks@[k] != BlockId(AIR) && !d.masks@.contains_key(k) && 0 <= s < 512
            implies #[trigger] after.world_solid(unlocate_spec(key, k), s) by {
        let i = crate::ordered_map::index_of_key(eb, k);
        let p = unlocate_spec(key, k);
        assert(shows_op(before, after, ops, ops[i]));
        assert(!masks_at(ops, p)) by {
            if masks_at(ops, p) {
                let t = choose|t: int| 0 <= t < ops.len() && (#[trigger] ops[t]) is SetMask && op_pos(ops[t]) == p;
                if t < nb {
                    assert(ops[t] == bs[t]);
                } else {
                    let j = t - nb;
                    crate::ordered_map::lemma_seq_map_at(em, j);
                    assert(ops[t] == ms[j]);
                    let k2 = em[j].0;
                    lemma_locate_unlocate(key, k);
                    lemma_locate_unlocate(key, k2);
                    assert(k2 == k);
                }
            }
        }
    }
    assert forall|k: u16, s: u16|
        d.blocks@.contains_key(k) && d.blocks@[k] != BlockId(AIR) && d.masks@.contains_key(k) && 0 <= s < 512
            implies #[trigger] after.world_solid(unlocate_spec(key, k), s) == mask_solid(d.masks@[k]@, s as int) by {
        let i = crate::ordered_map::index_of_key(eb, k);
        let j = crate::ordered_map::index_of_key(em, k);
        let p = unlocate_spec(key, k);
        assert(sets_solid_at(ops, p)) by {
            assert(ops[i] matches EditOp::SetBlock { id, .. } && id != BlockId(AIR));
        }
        assert(shows_op(before, after, ops, ops[nb + j]));
    }
    assert forall|k: u16, s: u16|
        d.masks@.contains_key(k) && 0 <= s < 512 && !mask_solid(d.masks@[k]@, s as int) implies !#[trigger] after.world_solid(
            unlocate_spec(key, k),
            s,
        ) by {
        let j = crate::ordered_map::index_of_key(em, k);
        assert(shows_op(before, after, ops, ops[nb + j]));
    }
}

impl Clone for ChangeTracker {
    /// A tracker with the same chunks in the same order, each delta copied.
    fn clone(&self) -> (r: Self)
        ensures
            r@ == self@,
    {
        proof {
            use_type_invariant(self);
        }
        let chunks = self.chunks.clone();
        proof {
            use_type_invariant(&self.chunks);
            use_type_invariant(&chunks);
            let es = self.chunks.entries();
            let rs = chunks.entries();
            self.lemma_chunk_map();
            assert forall|k: ChunkKey| #[trigger] chunks@.contains_key(k) implies self.chunks@.contains_key(k)
                && delta_wf(chunks@[k]) && chunks@[k]@ == self.chunks@[k]@ by {
                let j = crate::ordered_map::index_of_key(rs, k);
                crate::ordered_map::lemma_seq_map_at(rs, j);
                crate::ordered_map::lemma_seq_map_at(es, j);
                assert(self.chunk_map().contains_key(k));
            }
            assert forall|k: ChunkKey| #[trigger] self.chunks@.contains_key(k) implies chunks@.contains_key(k) by {
                let j = crate::ordered_map::index_of_key(es, k);
                crate::ordered_map::lemma_seq_map_at(rs, j);
            }
        }
        let r = ChangeTracker { chunks };
        assert(r@ =~= self@);
        r
    }
}

impl ChangeTracker {
    /// The chunk deltas, keyed by chunk.
    pub closed spec fn chunk_map(self) -> Map<ChunkKey, ChunkDelta> {
        self.chunks@
    }

    /// The touched chunks in key order, with their deltas.
    pub closed spec fn chunk_entries(self) -> Seq<(ChunkKey, ChunkDelta)> {
        self.chunks.entries()
    }

    /// The tracker's invariant: chunks in key order, and every delta as
    /// [`delta_wf`] describes.
    pub open spec fn wf(self) -> bool {
        &&& sorted_keys(self.chunk_entries())
        &&& forall|k: ChunkKey| #[trigger] self.chunk_map().contains_key(k) ==> delta_wf(self.chunk_map()[k])
    }

    /// Every tracker keeps its chunks in key order and its deltas well formed.
    #[verifier::type_invariant]
    pub open spec fn tracker_inv(self) -> bool {
        self.wf()
    }

    /// The chunk map is the map of the chunk entries.
    pub proof fn lemma_chunk_map(self)
        ensures
            self.chunk_map() == crate::ordered_map::seq_map(self.chunk_entries()),
    {
    }

    pub fn new() -> (r: ChangeTracker)
        ensures
            r.wf(),
            r@ == TrackerView::empty(),
            r.chunk_entries().len() == 0,
    {
        let r = ChangeTracker { chunks: OrderedMap::new() };
        assert(r@ =~= TrackerView::empty());
        r
    }


    /// Number of chunks holding at least one edit. This is exactly how many
    /// chunk records a save writes.
    pub fn modified_chunk_count(&self) -> (r: usize)
        ensures
            r == self@.dom().len(),
            r == self.chunk_entries().len(),
    {
        proof {
            use_type_invariant(self);
        }
        let r = self.chunks.len();
        assert(self@.dom() =~= self.chunks@.dom());
        r
    }

    /// True when nothing has been edited.
    pub fn is_empty(&self) -> (r: bool)
        ensures
            r == (self@ == TrackerView::empty()),
    {
        let r = self.chunks.is_empty();
        if r {
            assert(self@ =~= TrackerView::empty());
        } else {
            proof {
                assert(!(self.chunks@ =~= Map::<ChunkKey, ChunkDelta>::empty()));
                let k = choose|k: ChunkKey| self.chunks@.contains_key(k);
                assert(self@.contains_key(k));
            }
        }
        r
    }

    /// The touched chunks in key order, each with its edits.
    pub fn chunks(&self) -> (r: Vec<(ChunkKey, &ChunkDelta)>)
        ensures
            r@.len() == self.chunk_entries().len(),
            forall|i: int|
                0 <= i < r@.len() ==> (#[trigger] r@[i]).0 == self.chunk_entries()[i].0 && *r@[i].1
                    == self.chunk_entries()[i].1,
    {
        proof {
            use_type_invariant(self);
        }
        let mut r: Vec<(ChunkKey, &ChunkDelta)> = Vec::new();
        let mut i: usize = 0;
        while i < self.chunks.len()
            invariant
                self.chunks.wf(),
                i <= self.chunks.entries().len(),
                r@.len() == i,
                forall|j: int|
                    0 <= j < i ==> (#[trigger] r@[j]).0 == self.chunks.entries()[j].0 && *r@[j].1
                        == self.chunks.entries()[j].1,
            decreases self.chunks.entries().len() - i,
        {
            r.push((self.chunks.key_at(i), self.chunks.value_at(i)));
            i = i + 1;
        }
        r
    }

    /// The edits recorded for one chunk.
    pub fn chunk(&self, key: ChunkKey) -> (r: Option<&ChunkDelta>)
        ensures
            match r {
                Some(d) => self@.contains_key(key) && d@ == self@[key] && delta_wf(*d)
                    && self.chunk_map().contains_key(key) && *d == self.chunk_map()[key],
                None => !self@.contains_key(key) && !self.chunk_map().contains_key(key),
            },
    {
        proof {
            use_type_invariant(self);
        }
        self.chunks.get(&key)
    }

    /// Take a chunk's delta out of the map, or start an empty one.
    fn take_delta(&mut self, key: ChunkKey) -> (r: ChunkDelta)
        requires
            old(self).wf(),
        ensures
            final(self).chunks.wf(),
            final(self).chunks@ == old(self).chunks@.remove(key),
            r.blocks.wf(),
            r.masks.wf(),
            r@ == delta_or_empty(old(self)@, key),
            forall|k: u16| #[trigger] r.blocks@.contains_key(k) ==> k < 4096,
            forall|k: u16| #[trigger] r.masks@.contains_key(k) ==> k < 4096 && !all_bytes(r.masks@[k]@, 0),
    {
        proof {
            if old(self).chunks@.contains_key(key) {
                assert(old(self).chunk_map().contains_key(key));
            }
        }
        let mut chunks = OrderedMap::new();
        std::mem::swap(&mut chunks, &mut self.chunks);
        let taken = chunks.remove(&key);
        proof {
            use_type_invariant(&chunks);
            assert forall|k: ChunkKey| #[trigger] chunks@.contains_key(k) implies delta_wf(chunks@[k]) by {
                assert(old(self).chunk_map().contains_key(k));
            }
        }
        self.chunks = chunks;
        match taken {
            Some(d) => d,
            None => {
                let d = ChunkDelta::new();
                d
            },
        }
    }

    /// Put a delta back under its chunk.
    fn put_delta(&mut self, key: ChunkKey, d: ChunkDelta)
        requires
            old(self).chunks.wf(),
            forall|k: ChunkKey| #[trigger] old(self).chunks@.contains_key(k) ==> delta_wf(old(self).chunks@[k]),
            delta_wf(d),
        ensures
            final(self).wf(),
            final(self).chunks@ == old(self).chunks@.insert(key, d),
            final(self)@ == old(self)@.insert(key, d@),
    {
        let mut chunks = OrderedMap::new();
        std::mem::swap(&mut chunks, &mut self.chunks);
        chunks.insert(key, d);
        proof {
            use_type_invariant(&chunks);
        }
        self.chunks = chunks;
        assert(self@ =~= old(self)@.insert(key, d@));
    }

    /// Record a block change. Call this right after the world's `set_block`.
    ///
    /// Mirrors the engine's rule that changing a block's identity resets any
    /// carving on it.
    pub fn note_set_block(&mut self, x: i32, y: i32, z: i32, id: BlockId)
        ensures
            final(self).wf(),
            ({
                let key = locate_key(x, y, z);
                let index = locate_index(x, y, z);
                let d = delta_or_empty(old(self)@, key);
                final(self)@ == old(self)@.insert(
                    key,
                    DeltaView { blocks: d.blocks.insert(index, id), masks: d.masks.remove(index) },
                )
            }),
    {
        proof {
            use_type_invariant(&*self);
        }
        let (key, index) = locate(x, y, z);
        let mut delta = self.take_delta(key);
        let ghost before = delta@;
        delta.blocks.insert(index, id);
        delta.masks.remove(&index);
        assert(delta@.masks =~= before.masks.remove(index));
        assert(delta.blocks@.contains_key(index));
        self.put_delta(key, delta);
    }

    /// Record one carved sub-voxel. Call this only for carves the world
    /// actually performed, that is when it carved a solid block. Returns true
    /// if this carve emptied the block, which then becomes air.
    pub fn note_carve(&mut self, x: i32, y: i32, z: i32, sx: usize, sy: usize, sz: usize) -> (r: bool)
        requires
            sub_index(sx as int, sy as int, sz as int) < 512,
        ensures
            final(self).wf(),
            ({
                let key = locate_key(x, y, z);
                let index = locate_index(x, y, z);
                let d = delta_or_empty(old(self)@, key);
                let before = if d.masks.contains_key(index) {
                    d.masks[index]
                } else {
                    Seq::new(64, |j: int| 0xFFu8)
                };
                let after = mask_cleared(before, sub_index(sx as int, sy as int, sz as int));
                if all_bytes(after, 0) {
                    &&& r
                    &&& final(self)@ == old(self)@.insert(
                        key,
                        DeltaView {
                            blocks: d.blocks.insert(index, BlockId(AIR)),
                            masks: d.masks.remove(index),
                        },
                    )
                } else {
                    &&& !r
                    &&& final(self)@ == old(self)@.insert(
                        key,
                        DeltaView { blocks: d.blocks, masks: d.masks.insert(index, after) },
                    )
                }
            }),
    {
        proof {
            use_type_invariant(&*self);
        }
        let (key, index) = locate(x, y, z);
        let mut delta = self.take_delta(key);
        let ghost before = delta@;
        let mut mask = match delta.masks.get(&index) {
            Some(m) => *m,
            None => {
                assert(FULL_MASK@ =~= Seq::new(64, |j: int| 0xFFu8));
                FULL_MASK
            },
        };
        mask_clear(&mut mask, sx, sy, sz);
        if mask_is_empty(&mask) {
            delta.masks.remove(&index);
            delta.blocks.insert(index, BlockId(AIR));
            assert(delta@.masks =~= before.masks.remove(index));
            assert(delta.blocks@.contains_key(index));
            self.put_delta(key, delta);
            true
        } else {
            delta.masks.insert(index, mask);
            assert(delta@.masks =~= before.masks.insert(index, mask@));
            assert(delta.masks@.contains_key(index));
            self.put_delta(key, delta);
            false
        }
    }

    /// The carve mask of a block, or `None` if it is undamaged.
    pub fn mask_at(&self, x: i32, y: i32, z: i32) -> (r: Option<&[u8; MASK_BYTES]>)
        ensures
            ({
                let key = locate_key(x, y, z);
                let index = locate_index(x, y, z);
                let d = delta_or_empty(self@, key);
                match r {
                    Some(m) => d.masks.contains_key(index) && m@ == d.masks[index],
                    None => !d.masks.contains_key(index),
                }
            }),
    {
        proof {
            use_type_invariant(self);
        }
        let (key, index) = locate(x, y, z);
        match self.chunk(key) {
            Some(delta) => delta.masks.get(&index),
            None => None,
        }
    }

    /// The recorded block at a coordinate, if the player changed it.
    pub fn block_at(&self, x: i32, y: i32, z: i32) -> (r: Option<BlockId>)
        ensures
            ({
                let key = locate_key(x, y, z);
                let index = locate_index(x, y, z);
                let d = delta_or_empty(self@, key);
                r == (if d.blocks.contains_key(index) {
                    Some(d.blocks[index])
                } else {
                    None
                })
            }),
    {
        proof {
            use_type_invariant(self);
        }
        let (key, index) = locate(x, y, z);
        match self.chunk(key) {
            Some(delta) => match delta.blocks.get(&index) {
                Some(id) => Some(*id),
                None => None,
            },
            None => None,
        }
    }

    /// The edits that restore one chunk: those of its record, or none for a
    /// chunk the player never touched.
    pub open spec fn chunk_edit_ops(self, key: ChunkKey) -> Seq<EditOp> {
        if self.chunk_map().contains_key(key) {
            chunk_ops(key, self.chunk_map()[key])
        } else {
            Seq::<EditOp>::empty()
        }
    }

    /// The world writes that restore one chunk: its changed blocks first,
    /// then its carve masks. Setting a block clears its mask in the engine,
    /// so the reverse order would throw the carving away. An untouched chunk
    /// needs no writes.
    pub fn edit_ops(&self, key: ChunkKey) -> (r: Vec<EditOp>)
        requires
            self.chunk_map().contains_key(key) ==> key_in_range(key),
        ensures
            r@ == (if self.chunk_map().contains_key(key) {
                chunk_ops(key, self.chunk_map()[key])
            } else {
                Seq::<EditOp>::empty()
            }),
    {
        proof {
            use_type_invariant(self);
        }
        let mut ops: Vec<EditOp> = Vec::new();
        match self.chunk(key) {
            None => {
                assert(ops@ =~= Seq::<EditOp>::empty());
                ops
            },
            Some(delta) => {
                let ghost d = *delta;
                let ghost bs = block_ops(key, d);
                let ghost ms = mask_ops(key, d);
                let mut i: usize = 0;
                while i < delta.blocks.len()
                    invariant
                        *delta == d,
                        delta_wf(d),
                        key_in_range(key),
                        i <= d.blocks.entries().len(),
                        bs == block_ops(key, d),
                        bs.len() == d.blocks.entries().len(),
                        ops@ == bs.subrange(0, i as int),
                    decreases d.blocks.entries().len() - i,
                {
                    let index = delta.blocks.key_at(i);
                    let id = *delta.blocks.value_at(i);
                    proof {
                        crate::ordered_map::lemma_seq_map_at(d.blocks.entries(), i as int);
                    }
                    let (x, y, z) = unlocate(key, index);
                    assert(d.blocks.entries()[i as int] == (index, id));
                    assert(bs[i as int] == EditOp::SetBlock { x, y, z, id });
                    ops.push(EditOp::SetBlock { x, y, z, id });
                    i = i + 1;
                    assert(ops@ =~= bs.subrange(0, i as int));
                }
                assert(bs.subrange(0, i as int) =~= bs);
                assert(ops@ =~= bs + ms.subrange(0, 0));
                let mut j: usize = 0;
                while j < delta.masks.len()
                    invariant
                        *delta == d,
                        delta_wf(d),
                        key_in_range(key),
                        j <= d.masks.entries().len(),
                        bs == block_ops(key, d),
                        ms == mask_ops(key, d),
                        ms.len() == d.masks.entries().len(),
                        ops@ == bs + ms.subrange(0, j as int),
                    decreases d.masks.entries().len() - j,
                {
                    let index = delta.masks.key_at(j);
                    let mask = *delta.masks.value_at(j);
                    proof {
                        crate::ordered_map::lemma_seq_map_at(d.masks.entries(), j as int);
                    }
                    let (x, y, z) = unlocate(key, index);
                    assert(d.masks.entries()[j as int] == (index, mask));
                    assert(ms[j as int] == EditOp::SetMask { x, y, z, mask });
                    ops.push(EditOp::SetMask { x, y, z, mask });
                    j = j + 1;
                    assert(ops@ =~= bs + ms.subrange(0, j as int));
                }
                assert(ms.subrange(0, j as int) =~= ms);
                ops
            },
        }
    }

    /// Push one chunk's edits into the world: exactly the writes of
    /// [`ChangeTracker::edit_ops`], in that order. Call this whenever a chunk
    /// finishes generating, so streaming a chunk back in does not undo the
    /// player's work: afterwards the world holds every recorded block and,
    /// on each, exactly its recorded mask (see
    /// [`lemma_replayed_chunk_holds_its_edits`]).
    pub fn replay_chunk<W: WorldEdit>(&self, key: ChunkKey, world: &mut W)
        requires
            self.chunk_map().contains_key(key) ==> key_in_range(key),
        ensures
            shows_writes(*old(world), *final(world), self.chunk_edit_ops(key)),
    {
        proof {
            use_type_invariant(self);
        }
        let ops = self.edit_ops(key);
        let ghost w0 = *world;
        proof {
            if self.chunk_map().contains_key(key) {
                lemma_chunk_ops_ordered(key, self.chunk_map()[key]);
            }
            lemma_shows_nothing(w0);
            assert(ops@.take(0) =~= Seq::<EditOp>::empty());
        }
        let mut i: usize = 0;
        while i < ops.len()
            invariant
                i <= ops@.len(),
                ops@ == self.chunk_edit_ops(key),
                ops_ordered(ops@),
                masks_nonempty(ops@),
                w0 == *old(world),
                shows_writes(w0, *world, ops@.take(i as int)),
            decreases ops@.len() - i,
        {
            let ghost w1 = *world;
            let op = ops[i];
            match op {
                EditOp::SetBlock { x, y, z, id } => world.set_block_at(x, y, z, id),
                EditOp::SetMask { x, y, z, mask } => world.set_mask_at(x, y, z, &mask),
            }
            proof {
                lemma_one_write(w1, *world, op);
                lemma_shows_step(w0, w1, *world, ops@, i as int);
            }
            i = i + 1;
        }
        assert(ops@.take(ops@.len() as int) =~= ops@);
    }

    /// Push every recorded edit into the world, chunk by chunk in key order.
    /// Used once after load.
    #[verifier::spinoff_prover]
    #[verifier::rlimit(40)]
    pub fn replay<W: WorldEdit>(&self, world: &mut W)
        requires
            forall|k: ChunkKey| #[trigger] self.chunk_map().contains_key(k) ==> key_in_range(k),
        ensures
            shows_writes(*old(world), *final(world), entries_ops(self.chunk_entries())),
    {
        proof {
            use_type_invariant(self);
        }
        let ghost es = self.chunk_entries();
        let ghost w0 = *world;
        proof {
            self.lemma_chunk_map();
            lemma_shows_nothing(w0);
            assert(es.take(0) =~= Seq::<(ChunkKey, ChunkDelta)>::empty());
        }
        let mut i: usize = 0;
        while i < self.chunks.len()
            invariant
                self.wf(),
                forall|k: ChunkKey| #[trigger] self.chunk_map().contains_key(k) ==> key_in_range(k),
                es == self.chunk_entries(),
                self.chunk_map() == crate::ordered_map::seq_map(es),
                i <= es.len(),
                w0 == *old(world),
                shows_writes(w0, *world, entries_ops(es.take(i as int))),
                forall|q: BlockPos| #[trigger]
                    writes_to(entries_ops(es.take(i as int)), q) ==> exists|k: int|
                        0 <= k < i && locate_key(q.0, q.1, q.2) == (#[trigger] es[k]).0,
            decreases self.chunks.entries().len() - i,
        {
            let key = self.chunks.key_at(i);
            let ghost w1 = *world;
            proof {
                crate::ordered_map::lemma_seq_map_at(es, i as int);
            }
            self.replay_chunk(key, world);
            proof {
                let d = es[i as int].1;
                let prev = entries_ops(es.take(i as int));
                let cur = chunk_ops(key, d);
                assert(self.chunk_edit_ops(key) == cur);
                lemma_chunk_ops_ordered(key, d);
                assert forall|q: BlockPos| !(writes_to(prev, q) && writes_to(cur, q)) by {
                    if writes_to(prev, q) && writes_to(cur, q) {
                        let k = choose|k: int| 0 <= k < i && locate_key(q.0, q.1, q.2) == (#[trigger] es[k]).0;
                        crate::ordered_map::lemma_key_unique(es, k, i as int);
                    }
                }
                lemma_shows_compose(w0, w1, *world, prev, cur);
                assert(es.take(i + 1).drop_last() =~= es.take(i as int));
                assert(entries_ops(es.take(i + 1)) == prev + cur);
                assert forall|q: BlockPos| #[trigger] writes_to(entries_ops(es.take(i + 1)), q) implies exists|k: int|
                    0 <= k < i + 1 && locate_key(q.0, q.1, q.2) == (#[trigger] es[k]).0 by {
                    if writes_to(prev, q) {
                        let k = choose|k: int| 0 <= k < i && locate_key(q.0, q.1, q.2) == (#[trigger] es[k]).0;
                        assert(0 <= k < i + 1);
                    } else {
                        assert(writes_to(cur, q));
                        assert(locate_key(q.0, q.1, q.2) == es[i as int].0);
                    }
                }
            }
            i = i + 1;
        }
        assert(es.take(es.len() as int) =~= es);
    }

    /// Record a whole chunk's edits at once, replacing what was recorded for
    /// that chunk.
    #[verifier::spinoff_prover]
    pub(crate) fn insert_chunk(&mut self, key: ChunkKey, d: ChunkDelta)
        requires
            delta_wf(d),
        ensures
            final(self).wf(),
            final(self)@ == old(self)@.insert(key, d@),
    {
        proof {
            use_type_invariant(&*self);
        }
        self.put_delta(key, d);
    }

    /// Forget everything. Only useful when starting a new world.
    pub fn clear(&mut self)
        ensures
            final(self).wf(),
            final(self)@ == TrackerView::empty(),
    {
        self.chunks = OrderedMap::new();
        assert(self@ =~= TrackerView::empty());
    }
}


// --- mobs ------------------------------------------------------------------------

/// One mob's body state, with none of its AI. Paths, patience, chase memory
/// and a creeper's lit fuse are deliberately left out: a reloaded mob starts
/// idle. Vectors and angles are `f32` bit patterns.
#[derive(Copy, Clone, Debug, PartialEq, Eq)]
pub struct MobSave {
    pub kind: MobKind,
    /// Feet centre, in block units.
    pub pos: [u32; 3],
    pub vel: [u32; 3],
    /// Facing, radians, 0 along +X.
    pub yaw: u32,
    /// Always greater than zero; a dead mob is never written.
    pub health: u32,
    pub on_ground: bool,
}

/// Stable on-disk numbering for mob kinds, independent of the enum's order.
pub open spec fn mob_code_of(kind: MobKind) -> u8 {
    match kind {
        MobKind::Zombie => 0,
        MobKind::Skeleton => 1,
        MobKind::Creeper => 2,
        MobKind::Pig => 3,
    }
}

/// The mob kind a stored number names, if any.
pub open spec fn mob_kind_of_code(code: u8) -> Option<MobKind> {
    if code == 0 {
        Some(MobKind::Zombie)
    } else if code == 1 {
        Some(MobKind::Skeleton)
    } else if code == 2 {
        Some(MobKind::Creeper)
    } else if code == 3 {
        Some(MobKind::Pig)
    } else {
        None
    }
}

/// The stored numbers are fixed: zombie 0, skeleton 1, creeper 2, pig 3, and
/// reading a number back gives the kind it was written for. Reordering the
/// enum cannot turn saved pigs into creepers.
pub proof fn lemma_mob_codes_are_stable(kind: MobKind, code: u8)
    ensures
        mob_code_of(kind) == (match kind {
            MobKind::Zombie => 0u8,
            MobKind::Skeleton => 1u8,
            MobKind::Creeper => 2u8,
            MobKind::Pig => 3u8,
        }),
        mob_kind_of_code(code) == (if code == 0 {
            Some(MobKind::Zombie)
        } else if code == 1 {
            Some(MobKind::Skeleton)
        } else if code == 2 {
            Some(MobKind::Creeper)
        } else if code == 3 {
            Some(MobKind::Pig)
        } else {
            None
        }),
        mob_kind_of_code(mob_code_of(kind)) == Some(kind),
        mob_kind_of_code(code) matches Some(k) ==> mob_code_of(k) == code,
{
}

pub fn mob_kind_code(kind: MobKind) -> (r: u8)
    ensures
        r == mob_code_of(kind),
        mob_kind_of_code(r) == Some(kind),
        kind == MobKind::Zombie ==> r == 0,
        kind == MobKind::Skeleton ==> r == 1,
        kind == MobKind::Creeper ==> r == 2,
        kind == MobKind::Pig ==> r == 3,
{
    match kind {
        MobKind::Zombie => 0,
        MobKind::Skeleton => 1,
        MobKind::Creeper => 2,
        MobKind::Pig => 3,
    }
}

pub fn mob_kind_from_code(code: u8) -> (r: Option<MobKind>)
    ensures
        r == mob_kind_of_code(code),
        code == 0 ==> r == Some(MobKind::Zombie),
        code == 1 ==> r == Some(MobKind::Skeleton),
        code == 2 ==> r == Some(MobKind::Creeper),
        code == 3 ==> r == Some(MobKind::Pig),
        code > 3 ==> r is None,
{
    match code {
        0 => Some(MobKind::Zombie),
        1 => Some(MobKind::Skeleton),
        2 => Some(MobKind::Creeper),
        3 => Some(MobKind::Pig),
        _ => None,
    }
}

// --- float bit patterns ----------------------------------------------------------

/// An `f32` bit pattern that is a finite number: its exponent is not all ones.
pub open spec fn finite_bits(b: u32) -> bool {
    (b >> 23u32) & 0xFFu32 != 0xFFu32
}

/// A finite `f32` bit pattern greater than zero: sign clear, not `+0.0`.
pub open spec fn positive_bits(b: u32) -> bool {
    0 < b < 0x7F80_0000
}

/// A bit pattern equal to zero as a float: `+0.0` or `-0.0`.
pub open spec fn zero_bits(b: u32) -> bool {
    b == 0 || b == 0x8000_0000
}

/// Whether an `f32` bit pattern is finite.
pub fn is_finite_bits(b: u32) -> (r: bool)
    ensures
        r == finite_bits(b),
{
    (b >> 23u32) & 0xFFu32 != 0xFFu32
}

/// Positive finite floats order exactly as their bit patterns do.
pub proof fn lemma_positive_bits_finite(b: u32)
    requires
        positive_bits(b),
    ensures
        finite_bits(b),
{
    assert(0 < b < 0x7F80_0000 ==> (b >> 23u32) & 0xFFu32 != 0xFFu32) by (bit_vector);
}

// --- containers ------------------------------------------------------------------

/// What kind of container sits at a block position. An open number rather
/// than a closed enum: a build that grows a new container type picks the
/// next number, and kinds a build does not recognise still load.
#[derive(Copy, Clone, Debug, Default, PartialEq, Eq, Structural, Hash, PartialOrd, Ord)]
pub struct ContainerKind(pub u16);

/// Three slots (input, fuel, output) and three fields.
pub const CONTAINER_FURNACE: u16 = 1;
/// Slots only, no fields.
pub const CONTAINER_CHEST: u16 = 2;

/// Slots in a furnace, and what each one holds.
pub const FURNACE_SLOTS: usize = 3;
pub const FURNACE_INPUT: usize = 0;
pub const FURNACE_FUEL: usize = 1;
pub const FURNACE_OUTPUT: usize = 2;

/// Numeric fields in a furnace, in order.
pub const FURNACE_FIELDS: usize = 3;
/// Seconds of burn left in the fuel item currently alight.
pub const FURNACE_BURN_LEFT: usize = 0;
/// What that fuel item was worth when it was lit, for the flame gauge.
pub const FURNACE_BURN_TOTAL: usize = 1;
/// Seconds of smelting accumulated on the current input.
pub const FURNACE_PROGRESS: usize = 2;

/// Upper bounds, so a corrupt length cannot ask for an absurd allocation.
pub const MAX_CONTAINER_SLOTS: usize = 64;
pub const MAX_CONTAINER_FIELDS: usize = 16;

/// The contents of one container: some item slots and some numbers, whose
/// meaning `kind` fixes. Fields are `f32` bit patterns.
#[derive(Clone, Debug, PartialEq, Eq)]
pub struct ContainerSave {
    pub kind: ContainerKind,
    /// One entry per slot, empty ones included, so slot indices stay stable.
    pub slots: Vec<Option<ItemStack>>,
    pub fields: Vec<u32>,
}

/// A container with nothing in it and nothing happening.
pub open spec fn container_idle(c: ContainerSave) -> bool {
    &&& forall|i: int| 0 <= i < c.slots@.len() ==> (#[trigger] c.slots@[i]) is None
    &&& forall|i: int| 0 <= i < c.fields@.len() ==> zero_bits(#[trigger] c.fields@[i])
}

impl ContainerSave {
    /// An empty container with `slots` slots and `fields` zeroed numbers.
    pub fn new(kind: ContainerKind, slots: usize, fields: usize) -> (r: ContainerSave)
        ensures
            r.kind == kind,
            r.slots@ == Seq::new(slots as nat, |i: int| None::<ItemStack>),
            r.fields@ == Seq::new(fields as nat, |i: int| 0u32),
    {
        let mut s: Vec<Option<ItemStack>> = Vec::new();
        let mut i: usize = 0;
        while i < slots
            invariant
                i <= slots,
                s@ == Seq::new(i as nat, |j: int| None::<ItemStack>),
            decreases slots - i,
        {
            s.push(None);
            i = i + 1;
            assert(s@ =~= Seq::new(i as nat, |j: int| None::<ItemStack>));
        }
        let mut f: Vec<u32> = Vec::new();
        let mut j: usize = 0;
        while j < fields
            invariant
                j <= fields,
                f@ == Seq::new(j as nat, |k: int| 0u32),
            decreases fields - j,
        {
            f.push(0);
            j = j + 1;
            assert(f@ =~= Seq::new(j as nat, |k: int| 0u32));
        }
        ContainerSave { kind, slots: s, fields: f }
    }

    /// A furnace, laid out as [`FURNACE_INPUT`], [`FURNACE_FUEL`],
    /// [`FURNACE_OUTPUT`] and [`FURNACE_BURN_LEFT`], [`FURNACE_BURN_TOTAL`],
    /// [`FURNACE_PROGRESS`] describe. The timings are `f32` bit patterns of
    /// seconds.
    pub fn furnace(
        input: Option<ItemStack>,
        fuel: Option<ItemStack>,
        output: Option<ItemStack>,
        burn_left: u32,
        burn_total: u32,
        progress: u32,
    ) -> (r: ContainerSave)
        ensures
            r.kind == ContainerKind(CONTAINER_FURNACE),
            r.slots@ == seq![input, fuel, output],
            r.fields@ == seq![burn_left, burn_total, progress],
    {
        let mut slots: Vec<Option<ItemStack>> = Vec::new();
        slots.push(input);
        slots.push(fuel);
        slots.push(output);
        let mut fields: Vec<u32> = Vec::new();
        fields.push(burn_left);
        fields.push(burn_total);
        fields.push(progress);
        assert(slots@ =~= seq![input, fuel, output]);
        assert(fields@ =~= seq![burn_left, burn_total, progress]);
        ContainerSave { kind: ContainerKind(CONTAINER_FURNACE), slots, fields }
    }

    /// Contents of a slot, or `None` for an empty or out-of-range one.
    pub fn slot(&self, index: usize) -> (r: Option<ItemStack>)
        ensures
            r == (if index < self.slots@.len() {
                self.slots@[index as int]
            } else {
                None
            }),
    {
        if index < self.slots.len() {
            self.slots[index]
        } else {
            None
        }
    }

    /// A numeric field as an `f32` bit pattern, or `0.0` if this container
    /// does not have that many.
    pub fn field(&self, index: usize) -> (r: u32)
        ensures
            r == (if index < self.fields@.len() {
                self.fields@[index as int]
            } else {
                0
            }),
    {
        if index < self.fields.len() {
            self.fields[index]
        } else {
            0
        }
    }

    /// Seconds of burn left. Meaningful for a furnace.
    pub fn burn_left(&self) -> (r: u32)
        ensures
            r == (if FURNACE_BURN_LEFT < self.fields@.len() {
                self.fields@[FURNACE_BURN_LEFT as int]
            } else {
                0
            }),
    {
        self.field(FURNACE_BURN_LEFT)
    }

    /// What the burning fuel item was worth, in seconds.
    pub fn burn_total(&self) -> (r: u32)
        ensures
            r == (if FURNACE_BURN_TOTAL < self.fields@.len() {
                self.fields@[FURNACE_BURN_TOTAL as int]
            } else {
                0
            }),
    {
        self.field(FURNACE_BURN_TOTAL)
    }

    /// Seconds of smelting accumulated on the current input.
    pub fn progress(&self) -> (r: u32)
        ensures
            r == (if FURNACE_PROGRESS < self.fields@.len() {
                self.fields@[FURNACE_PROGRESS as int]
            } else {
                0
            }),
    {
        self.field(FURNACE_PROGRESS)
    }

    /// Nothing in it and nothing happening: not worth a save record.
    pub fn is_empty(&self) -> (r: bool)
        ensures
            r == container_idle(*self),
    {
        let mut i: usize = 0;
        while i < self.slots.len()
            invariant
                i <= self.slots@.len(),
                forall|j: int| 0 <= j < i ==> (#[trigger] self.slots@[j]) is None,
            decreases self.slots@.len() - i,
        {
            if self.slots[i].is_some() {
                return false;
            }
            i = i + 1;
        }
        let mut j: usize = 0;
        while j < self.fields.len()
            invariant
                j <= self.fields@.len(),
                forall|k: int| 0 <= k < self.slots@.len() ==> (#[trigger] self.slots@[k]) is None,
                forall|k: int| 0 <= k < j ==> zero_bits(#[trigger] self.fields@[k]),
            decreases self.fields@.len() - j,
        {
            let f = self.fields[j];
            if f != 0 && f != 0x8000_0000 {
                return false;
            }
            j = j + 1;
        }
        true
    }
}

// --- what a save holds -----------------------------------------------------------

/// Player state that survives a quit, as `f32` bit patterns.
#[derive(Copy, Clone, Debug, PartialEq, Eq)]
pub struct PlayerSave {
    pub pos: [u32; 3],
    pub yaw: u32,
    pub pitch: u32,
    pub health: u32,
}

impl Default for PlayerSave {
    /// Standing at `(0, 80, 0)`, facing +X, level, at full health of 20.
    fn default() -> (r: PlayerSave)
        ensures
            r.pos@ == seq![0u32, 0x42A0_0000u32, 0u32],
            r.yaw == 0,
            r.pitch == 0,
            r.health == 0x41A0_0000,
    {
        let r = PlayerSave { pos: [0, 0x42A0_0000, 0], yaw: 0, pitch: 0, health: 0x41A0_0000 };
        assert(r.pos@ =~= seq![0u32, 0x42A0_0000u32, 0u32]);
        r
    }
}

/// Everything a world file contains.
#[derive(Clone, Debug)]
pub struct SaveData {
    pub seed: u32,
    pub player: PlayerSave,
    pub inventory: Inventory,
    pub edits: ChangeTracker,
    /// Mobs near the player when the save was written. Empty in a version 1
    /// file, and in a fresh world.
    pub mobs: Vec<MobSave>,
    /// Container contents, keyed by the block the container occupies.
    pub containers: OrderedMap<BlockPos, ContainerSave>,
}

impl SaveData {
    /// A fresh world.
    pub fn new(seed: u32) -> (r: SaveData)
        ensures
            r.seed == seed,
            r.player.pos@ == seq![0u32, 0x42A0_0000u32, 0u32],
            r.player.yaw == 0,
            r.player.pitch == 0,
            r.player.health == 0x41A0_0000,
            r.inventory@.selected == 0,
            r.inventory@.slots == Seq::new(36, |i: int| None::<ItemStack>),
            r.edits.wf(),
            r.edits@ == TrackerView::empty(),
            r.edits.chunk_entries().len() == 0,
            r.mobs@ == Seq::<MobSave>::empty(),
            r.containers.wf(),
            r.containers@ == Map::<BlockPos, ContainerSave>::empty(),
            r.containers.entries().len() == 0,
    {
        SaveData {
            seed,
            player: PlayerSave::default(),
            inventory: Inventory::new(),
            edits: ChangeTracker::new(),
            mobs: Vec::new(),
            containers: OrderedMap::new(),
        }
    }

    /// Store one container, or forget it if it holds nothing and is doing
    /// nothing: an empty furnace the player opened once is not worth bytes.
    pub fn set_container(&mut self, pos: BlockPos, container: ContainerSave)
        ensures
            final(self).containers.wf(),
            final(self).containers@ == (if container_idle(container) {
                old(self).containers@.remove(pos)
            } else {
                old(self).containers@.insert(pos, container)
            }),
            final(self).seed == old(self).seed,
            final(self).player == old(self).player,
            final(self).inventory == old(self).inventory,
            final(self).edits == old(self).edits,
            final(self).mobs == old(self).mobs,
    {
        proof {
            use_type_invariant(&self.containers);
        }
        if container.is_empty() {
            self.containers.remove(&pos);
        } else {
            self.containers.insert(pos, container);
        }
    }

    /// The container saved at a block position, if any.
    pub fn container(&self, pos: BlockPos) -> (r: Option<&ContainerSave>)
        ensures
            match r {
                Some(c) => self.containers@.contains_key(pos) && *c == self.containers@[pos],
                None => !self.containers@.contains_key(pos),
            },
    {
        proof {
            use_type_invariant(&self.containers);
        }
        self.containers.get(&pos)
    }
}

/// The records of `m` that are not furnaces.
pub open spec fn non_furnaces(m: Map<BlockPos, ContainerSave>) -> Map<BlockPos, ContainerSave> {
    Map::new(
        |p: BlockPos| m.contains_key(p) && m[p].kind != ContainerKind(CONTAINER_FURNACE),
        |p: BlockPos| m[p],
    )
}

/// `m` with each of `live` stored in turn, as [`SaveData::set_container`]
/// stores one.
pub open spec fn store_all(m: Map<BlockPos, ContainerSave>, live: Seq<(BlockPos, ContainerSave)>) -> Map<
    BlockPos,
    ContainerSave,
>
    decreases live.len(),
{
    if live.len() == 0 {
        m
    } else {
        let (p, c) = live[0];
        store_all(
            if container_idle(c) {
                m.remove(p)
            } else {
                m.insert(p, c)
            },
            live.drop_first(),
        )
    }
}

impl SaveData {
    /// Replace every furnace record with the furnaces as they are now, given
    /// as position and record. Records of every other kind, including kinds
    /// this build does not know, are kept.
    pub fn capture_furnaces(&mut self, live: Vec<(BlockPos, ContainerSave)>)
        ensures
            final(self).containers.wf(),
            final(self).containers@ == store_all(non_furnaces(old(self).containers@), live@),
            final(self).seed == old(self).seed,
            final(self).player == old(self).player,
            final(self).inventory == old(self).inventory,
            final(self).edits == old(self).edits,
            final(self).mobs == old(self).mobs,
    {
        proof {
            use_type_invariant(&self.containers);
        }
        let ghost es = self.containers.entries();
        let ghost m0 = self.containers@;
        let n = self.containers.len();
        let mut found: Vec<(BlockPos, bool)> = Vec::new();
        let mut i: usize = 0;
        while i < n
            invariant
                n == es.len(),
                i <= n,
                self.containers.entries() == es,
                found@.len() == i,
                forall|j: int|
                    0 <= j < i ==> (#[trigger] found@[j]).0 == es[j].0 && found@[j].1 == (es[j].1.kind
                        == ContainerKind(CONTAINER_FURNACE)),
            decreases n - i,
        {
            let key = self.containers.key_at(i);
            let is_furnace = self.containers.value_at(i).kind.0 == CONTAINER_FURNACE;
            found.push((key, is_furnace));
            i = i + 1;
        }
        let mut i: usize = 0;
        while i < n
            invariant
                n == es.len(),
                i <= n,
                sorted_keys(es),
                m0 == crate::ordered_map::seq_map(es),
                found@.len() == n,
                forall|j: int|
                    0 <= j < n ==> (#[trigger] found@[j]).0 == es[j].0 && found@[j].1 == (es[j].1.kind
                        == ContainerKind(CONTAINER_FURNACE)),
                self.containers.wf(),
                self.seed == old(self).seed,
                self.player == old(self).player,
                self.inventory == old(self).inventory,
                self.edits == old(self).edits,
                self.mobs == old(self).mobs,
                forall|p: BlockPos| #[trigger]
                    self.containers@.contains_key(p) ==> m0.contains_key(p) && self.containers@[p] == m0[p],
                forall|j: int| i <= j < n ==> self.containers@.contains_key(#[trigger] es[j].0),
                forall|j: int|
                    0 <= j < i ==> (self.containers@.contains_key(#[trigger] es[j].0) <==> es[j].1.kind
                        != ContainerKind(CONTAINER_FURNACE)),
            decreases n - i,
        {
            let (key, is_furnace) = found[i];
            if is_furnace {
                self.containers.remove(&key);
                proof {
                    assert forall|j: int| i + 1 <= j < n implies self.containers@.contains_key(
                        #[trigger] es[j].0,
                    ) by {
                        if es[j].0 == key {
                            crate::ordered_map::lemma_key_unique(es, j, i as int);
                        }
                    }
                    assert forall|j: int| 0 <= j < i implies (self.containers@.contains_key(
                        #[trigger] es[j].0,
                    ) <==> es[j].1.kind != ContainerKind(CONTAINER_FURNACE)) by {
                        if es[j].0 == key {
                            crate::ordered_map::lemma_key_unique(es, j, i as int);
                        }
                    }
                }
            }
            i = i + 1;
        }
        proof {
            assert(self.containers@ =~= non_furnaces(m0)) by {
                assert forall|p: BlockPos| #[trigger] self.containers@.contains_key(p) <==> non_furnaces(
                    m0,
                ).contains_key(p) by {
                    if m0.contains_key(p) {
                        let j = crate::ordered_map::index_of_key(es, p);
                        crate::ordered_map::lemma_seq_map_at(es, j);
                    }
                }
            }
        }
        let ghost live0 = live@;
        let mut live = live;
        while live.len() > 0
            invariant
                self.containers.wf(),
                store_all(self.containers@, live@) == store_all(non_furnaces(m0), live0),
                self.seed == old(self).seed,
                self.player == old(self).player,
                self.inventory == old(self).inventory,
                self.edits == old(self).edits,
                self.mobs == old(self).mobs,
            decreases live@.len(),
        {
            let ghost before = live@;
            let (p, c) = live.remove(0);
            assert(live@ =~= before.drop_first());
            self.set_container(p, c);
        }
    }
}

/// The abstract contents of a [`ContainerSave`].
pub struct ContainerView {
    pub kind: ContainerKind,
    pub slots: Seq<Option<ItemStack>>,
    pub fields: Seq<u32>,
}

impl View for ContainerSave {
    type V = ContainerView;

    open spec fn view(&self) -> ContainerView {
        ContainerView { kind: self.kind, slots: self.slots@, fields: self.fields@ }
    }
}

/// The abstract contents of every container of a map.
pub open spec fn container_views(m: Map<BlockPos, ContainerSave>) -> Map<BlockPos, ContainerView> {
    m.map_values(|c: ContainerSave| c@)
}

/// The abstract contents of a [`SaveData`].
pub struct SaveView {
    pub seed: u32,
    pub player: PlayerSave,
    pub selected: int,
    pub slots: Seq<Option<ItemStack>>,
    pub edits: TrackerView,
    pub mobs: Seq<MobSave>,
    pub containers: Map<BlockPos, ContainerView>,
}

impl View for SaveData {
    type V = SaveView;

    open spec fn view(&self) -> SaveView {
        SaveView {
            seed: self.seed,
            player: self.player,
            selected: self.inventory@.selected,
            slots: self.inventory@.slots,
            edits: self.edits@,
            mobs: self.mobs@,
            containers: container_views(self.containers@),
        }
    }
}

// --- errors ----------------------------------------------------------------------

/// Everything that can go wrong reading a save. Loading never panics.
#[derive(Copy, Clone, Debug, PartialEq, Eq)]
pub enum SaveError {
    /// The bytes are not a Loudstone save at all.
    BadMagic([u8; 4]),
    /// A save from a version this build does not understand.
    UnsupportedVersion { found: u32, supported: u32 },
    /// The bytes ended in the middle of a record.
    Truncated { needed: usize, available: usize },
    /// Structurally intact but semantically impossible.
    Corrupt(&'static str),
}

/// The decimal digit `d` as a character.
pub open spec fn digit_char(d: nat) -> char {
    (48 + d) as char
}

/// The decimal digits of `n`, most significant first.
pub open spec fn decimal(n: nat) -> Seq<char>
    decreases n,
{
    if n < 10 {
        seq![digit_char(n)]
    } else {
        decimal(n / 10) + seq![digit_char(n % 10)]
    }
}

fn digit_text(d: u64) -> (r: &'static str)
    requires
        d < 10,
    ensures
        r@ == seq![digit_char(d as nat)],
{
    proof {
        reveal_strlit("0");
        reveal_strlit("1");
        reveal_strlit("2");
        reveal_strlit("3");
        reveal_strlit("4");
        reveal_strlit("5");
        reveal_strlit("6");
        reveal_strlit("7");
        reveal_strlit("8");
        reveal_strlit("9");
    }
    let r = match d {
        0 => "0",
        1 => "1",
        2 => "2",
        3 => "3",
        4 => "4",
        5 => "5",
        6 => "6",
        7 => "7",
        8 => "8",
        _ => "9",
    };
    assert(r@ =~= seq![digit_char(d as nat)]);
    r
}

fn push_decimal(s: &mut String, n: u64)
    ensures
        final(s)@ == old(s)@ + decimal(n as nat),
    decreases n,
{
    if n >= 10 {
        push_decimal(s, n / 10);
    }
    s.append(digit_text(n % 10));
    assert(final(s)@ =~= old(s)@ + decimal(n as nat)) by {
        if n >= 10 {
            assert(decimal(n as nat) == decimal((n / 10) as nat) + seq![digit_char((n % 10) as nat)]);
        }
    };
}

/// The text `String::from_utf8_lossy` decodes from some bytes: the bytes
/// read as UTF-8, each invalid sequence replaced by U+FFFD.
pub uninterp spec fn utf8_lossy(bytes: Seq<u8>) -> Seq<char>;

/// Calls `String::from_utf8_lossy` on the bytes and takes the text as an
/// owned `String`. Claimed: the text depends on the bytes alone.
#[verifier::external_body]
fn decode_lossy(bytes: &[u8; 4]) -> (r: String)
    ensures
        r@ == utf8_lossy(bytes@),
{
    String::from_utf8_lossy(bytes).into_owned()
}

/// Some text as `{:?}` shows a string: in double quotes, with escapes.
pub uninterp spec fn debug_quoted(text: Seq<char>) -> Seq<char>;

/// Formats a string with `{:?}`, which is `<str as Debug>::fmt`. Claimed:
/// the result depends on the text alone.
#[verifier::external_body]
fn quote_text(text: &str) -> (r: String)
    ensures
        r@ == debug_quoted(text@),
{
    format!("{:?}", text)
}

/// What [`SaveError::message`] says for each error.
pub open spec fn message_text(e: SaveError) -> Seq<char> {
    match e {
        SaveError::BadMagic(got) => "not a Loudstone save: expected magic \"LDST\", found "@
            + debug_quoted(utf8_lossy(got@)),
        SaveError::UnsupportedVersion { found, supported } => "save format version "@ + decimal(
            found as nat,
        ) + " is not supported by this build (which reads versions "@ + decimal(
            MIN_VERSION as nat,
        ) + " to "@ + decimal(supported as nat) + ")"@,
        SaveError::Truncated { needed, available } => "save file ends early: needed "@ + decimal(
            needed as nat,
        ) + " more bytes, "@ + decimal(available as nat) + " remain"@,
        SaveError::Corrupt(what) => "corrupt save file: "@ + what@,
    }
}

impl SaveError {
    /// A sentence describing the error, for the player.
    pub fn message(&self) -> (r: String)
        ensures
            r@ == message_text(*self),
    {
        match self {
            SaveError::BadMagic(got) => {
                let mut s = String::from_str("not a Loudstone save: expected magic \"LDST\", found ");
                let text = decode_lossy(got);
                let q = quote_text(text.as_str());
                s.append(q.as_str());
                s
            },
            SaveError::UnsupportedVersion { found, supported } => {
                let mut s = String::from_str("save format version ");
                push_decimal(&mut s, *found as u64);
                s.append(" is not supported by this build (which reads versions ");
                push_decimal(&mut s, MIN_VERSION as u64);
                s.append(" to ");
                push_decimal(&mut s, *supported as u64);
                s.append(")");
                s
            },
            SaveError::Truncated { needed, available } => {
                let mut s = String::from_str("save file ends early: needed ");
                push_decimal(&mut s, *needed as u64);
                s.append(" more bytes, ");
                push_decimal(&mut s, *available as u64);
                s.append(" remain");
                s
            },
            SaveError::Corrupt(what) => {
                let mut s = String::from_str("corrupt save file: ");
                s.append(what);
                s
            },
        }
    }
}

} // verus!
