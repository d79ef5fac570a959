//! Writing a save: the byte layout, stated once as a specification and
//! produced by [`save_to_bytes`].
//!
//! Little-endian throughout:
//!
//! ```text
//! "LDST"                       magic
//! u32                          version
//! u32                          seed
//! f32 f32 f32                  player position
//! f32 f32                      player yaw, pitch
//! f32                          player health
//! u8                           selected hotbar slot
//! u32                          occupied inventory slot count
//!   u8 u16 u8 u16                slot index, item id, count, durability
//! u32                          modified chunk count
//!   i32 i32 i32                  chunk position
//!   u32                          block edit count
//!     u16 u8                       index within chunk, block id
//!   u32                          carve mask count
//!     u16 [u8; 64]                 index within chunk, 512-bit mask
//! --- version 1 files stop here ---
//! u32                          mob count
//!   u8                           kind (0 zombie, 1 skeleton, 2 creeper, 3 pig)
//!   f32 f32 f32                  position
//!   f32 f32 f32                  velocity
//!   f32                          yaw
//!   f32                          health
//!   u8                           flags: bit 0 = on ground
//! u32                          container count
//!   i32 i32 i32                  block position
//!   u16                          container kind
//!   u8                           slot count
//!   u8                           occupied slot count
//!     u8 u16 u8 u16                slot index, item id, count, durability
//!   u8                           numeric field count
//!     f32                          field value
//! ```
//!
//! Every keyed collection is written in key order, so a save is
//! byte-identical for identical state.
use vstd::prelude::*;
use vstd::bytes::{spec_u16_to_le_bytes, spec_u32_to_le_bytes, u16_to_le_bytes, u32_to_le_bytes};
use crate::block::BlockId;
use crate::chunk::MASK_BYTES;
use crate::inventory::ItemStack;
use crate::ordered_map::OrderedMap;
use crate::save::{
    magic_bytes, mob_code_of, mob_kind_code, BlockPos, ChangeTracker, ChunkDelta, ChunkKey,
    ContainerSave, MobSave, PlayerSave, SaveData, MAGIC, MAX_CONTAINER_FIELDS,
    MAX_CONTAINER_SLOTS, VERSION,
};

verus! {

// --- primitive encodings ---------------------------------------------------------

pub open spec fn le16(x: u16) -> Seq<u8> {
    spec_u16_to_le_bytes(x)
}

pub open spec fn le32(x: u32) -> Seq<u8> {
    spec_u32_to_le_bytes(x)
}

/// A signed value is stored as its two's-complement bit pattern.
pub open spec fn le_i32(x: i32) -> Seq<u8> {
    spec_u32_to_le_bytes(x as u32)
}

/// Concatenating the pieces of a prefix one more step appends that piece.
pub proof fn lemma_flatten_take_step(rs: Seq<Seq<u8>>, i: int)
    requires
        0 <= i < rs.len(),
    ensures
        rs.take(i + 1).flatten() == rs.take(i).flatten() + rs[i],
{
    assert(rs.take(i + 1) =~= rs.take(i).push(rs[i]));
    rs.take(i).lemma_flatten_push(rs[i]);
}

fn put_u8(out: &mut Vec<u8>, x: u8)
    ensures
        final(out)@ == old(out)@ + seq![x],
{
    out.push(x);
    assert(out@ =~= old(out)@ + seq![x]);
}

fn put_u16(out: &mut Vec<u8>, x: u16)
    ensures
        final(out)@ == old(out)@ + le16(x),
{
    let mut b = u16_to_le_bytes(x);
    out.append(&mut b);
}

fn put_u32(out: &mut Vec<u8>, x: u32)
    ensures
        final(out)@ == old(out)@ + le32(x),
{
    let mut b = u32_to_le_bytes(x);
    out.append(&mut b);
}

fn put_i32(out: &mut Vec<u8>, x: i32)
    ensures
        final(out)@ == old(out)@ + le_i32(x),
{
    put_u32(out, x as u32);
}

// --- the layout ------------------------------------------------------------------

/// One item slot record: slot index, item, count, durability. An empty slot
/// writes nothing.
pub open spec fn slot_record(index: int, slot: Option<ItemStack>) -> Seq<u8> {
    match slot {
        Some(st) => seq![index as u8] + le16(st.item.0) + seq![st.count] + le16(st.durability),
        None => Seq::empty(),
    }
}

/// The records of every occupied slot, in slot order.
pub open spec fn slot_records(slots: Seq<Option<ItemStack>>) -> Seq<Seq<u8>> {
    Seq::new(slots.len(), |i: int| slot_record(i, slots[i]))
}

/// Number of occupied slots.
pub open spec fn some_count(slots: Seq<Option<ItemStack>>) -> nat
    decreases slots.len(),
{
    if slots.len() == 0 {
        0
    } else {
        some_count(slots.drop_last()) + if slots.last() is Some {
            1nat
        } else {
            0nat
        }
    }
}

pub open spec fn player_bytes(p: PlayerSave) -> Seq<u8> {
    le32(p.pos@[0]) + le32(p.pos@[1]) + le32(p.pos@[2]) + le32(p.yaw) + le32(p.pitch) + le32(
        p.health,
    )
}

/// Selected slot, occupied count, then one record per occupied slot.
pub open spec fn inventory_bytes(selected: int, slots: Seq<Option<ItemStack>>) -> Seq<u8> {
    seq![selected as u8] + le32(some_count(slots) as u32) + slot_records(slots).flatten()
}

pub open spec fn block_record(e: (u16, BlockId)) -> Seq<u8> {
    le16(e.0) + seq![e.1.0]
}

pub open spec fn block_records(es: Seq<(u16, BlockId)>) -> Seq<Seq<u8>> {
    es.map_values(|e: (u16, BlockId)| block_record(e))
}

pub open spec fn mask_record(e: (u16, [u8; MASK_BYTES])) -> Seq<u8> {
    le16(e.0) + e.1@
}

pub open spec fn mask_records(es: Seq<(u16, [u8; MASK_BYTES])>) -> Seq<Seq<u8>> {
    es.map_values(|e: (u16, [u8; MASK_BYTES])| mask_record(e))
}

/// One chunk: position, block edits in index order, masks in index order.
pub open spec fn delta_record(e: (ChunkKey, ChunkDelta)) -> Seq<u8> {
    le_i32(e.0.0) + le_i32(e.0.1) + le_i32(e.0.2) + le32(e.1.blocks.entries().len() as u32)
        + block_records(e.1.blocks.entries()).flatten() + le32(e.1.masks.entries().len() as u32)
        + mask_records(e.1.masks.entries()).flatten()
}

pub open spec fn delta_records(es: Seq<(ChunkKey, ChunkDelta)>) -> Seq<Seq<u8>> {
    es.map_values(|e: (ChunkKey, ChunkDelta)| delta_record(e))
}

/// Chunk count, then every touched chunk in key order.
pub open spec fn edits_bytes(t: ChangeTracker) -> Seq<u8> {
    le32(t.chunk_entries().len() as u32) + delta_records(t.chunk_entries()).flatten()
}

pub open spec fn mob_record(m: MobSave) -> Seq<u8> {
    seq![mob_code_of(m.kind)] + le32(m.pos@[0]) + le32(m.pos@[1]) + le32(m.pos@[2]) + le32(
        m.vel@[0],
    ) + le32(m.vel@[1]) + le32(m.vel@[2]) + le32(m.yaw) + le32(m.health) + seq![
        if m.on_ground {
            1u8
        } else {
            0u8
        },
    ]
}

pub open spec fn mob_records(ms: Seq<MobSave>) -> Seq<Seq<u8>> {
    ms.map_values(|m: MobSave| mob_record(m))
}

pub open spec fn mobs_bytes(ms: Seq<MobSave>) -> Seq<u8> {
    le32(ms.len() as u32) + mob_records(ms).flatten()
}

/// How many slots of a container are written: at most [`MAX_CONTAINER_SLOTS`].
pub open spec fn written_slots(c: ContainerSave) -> nat {
    if c.slots@.len() <= MAX_CONTAINER_SLOTS {
        c.slots@.len()
    } else {
        MAX_CONTAINER_SLOTS as nat
    }
}

/// How many fields of a container are written: at most [`MAX_CONTAINER_FIELDS`].
pub open spec fn written_fields(c: ContainerSave) -> nat {
    if c.fields@.len() <= MAX_CONTAINER_FIELDS {
        c.fields@.len()
    } else {
        MAX_CONTAINER_FIELDS as nat
    }
}

pub open spec fn field_records(fs: Seq<u32>) -> Seq<Seq<u8>> {
    fs.map_values(|f: u32| le32(f))
}

/// One container: position, kind, slot count, occupied slots, fields.
pub open spec fn container_record(e: (BlockPos, ContainerSave)) -> Seq<u8> {
    let c = e.1;
    let slots = c.slots@.take(written_slots(c) as int);
    let fields = c.fields@.take(written_fields(c) as int);
    le_i32(e.0.0) + le_i32(e.0.1) + le_i32(e.0.2) + le16(c.kind.0) + seq![written_slots(c) as u8]
        + seq![some_count(slots) as u8] + slot_records(slots).flatten() + seq![
        written_fields(c) as u8,
    ] + field_records(fields).flatten()
}

pub open spec fn container_records(es: Seq<(BlockPos, ContainerSave)>) -> Seq<Seq<u8>> {
    es.map_values(|e: (BlockPos, ContainerSave)| container_record(e))
}

pub open spec fn containers_bytes(cs: OrderedMap<BlockPos, ContainerSave>) -> Seq<u8> {
    le32(cs.entries().len() as u32) + container_records(cs.entries()).flatten()
}

/// The bytes a save is written as.
pub open spec fn save_bytes(d: SaveData) -> Seq<u8> {
    magic_bytes() + le32(VERSION) + le32(d.seed) + player_bytes(d.player) + inventory_bytes(
        d.inventory@.selected,
        d.inventory@.slots,
    ) + edits_bytes(d.edits) + mobs_bytes(d.mobs@) + containers_bytes(d.containers)
}

// --- writing ---------------------------------------------------------------------

pub proof fn lemma_some_count_push(s: Seq<Option<ItemStack>>, x: Option<ItemStack>)
    ensures
        some_count(s.push(x)) == some_count(s) + if x is Some {
            1nat
        } else {
            0nat
        },
{
    assert(s.push(x).drop_last() =~= s);
}

pub proof fn lemma_some_count_le(s: Seq<Option<ItemStack>>)
    ensures
        some_count(s) <= s.len(),
    decreases s.len(),
{
    if s.len() > 0 {
        lemma_some_count_le(s.drop_last());
    }
}

/// Number of occupied slots among the first `n`.
fn count_occupied(slots: &[Option<ItemStack>], n: usize) -> (r: usize)
    requires
        n <= slots@.len(),
    ensures
        r == some_count(slots@.take(n as int)),
        r <= n,
{
    let mut c: usize = 0;
    let mut i: usize = 0;
    while i < n
        invariant
            i <= n <= slots@.len(),
            c == some_count(slots@.take(i as int)),
            c <= i,
        decreases n - i,
    {
        proof {
            assert(slots@.take(i + 1) =~= slots@.take(i as int).push(slots@[i as int]));
            lemma_some_count_push(slots@.take(i as int), slots@[i as int]);
        }
        if slots[i].is_some() {
            c = c + 1;
        }
        i = i + 1;
    }
    c
}

/// Write the records of the occupied slots among the first `n`.
fn write_occupied(out: &mut Vec<u8>, slots: &[Option<ItemStack>], n: usize)
    requires
        n <= slots@.len(),
    ensures
        final(out)@ == old(out)@ + slot_records(slots@.take(n as int)).flatten(),
{
    let ghost base = out@;
    let ghost rs = slot_records(slots@.take(n as int));
    let mut i: usize = 0;
    while i < n
        invariant
            i <= n <= slots@.len(),
            rs == slot_records(slots@.take(n as int)),
            out@ == base + rs.take(i as int).flatten(),
        decreases n - i,
    {
        proof {
            lemma_flatten_take_step(rs, i as int);
        }
        match slots[i] {
            Some(st) => {
                put_u8(out, i as u8);
                put_u16(out, st.item.0);
                put_u8(out, st.count);
                put_u16(out, st.durability);
                assert(rs[i as int] =~= seq![i as u8] + le16(st.item.0) + seq![st.count] + le16(
                    st.durability,
                ));
            },
            None => {
                assert(rs[i as int] =~= Seq::<u8>::empty());
            },
        }
        i = i + 1;
        assert(out@ =~= base + rs.take(i as int).flatten());
    }
    assert(rs.take(n as int) =~= rs);
}

fn write_edits(out: &mut Vec<u8>, t: &ChangeTracker)
    requires
        t.wf(),
    ensures
        final(out)@ == old(out)@ + edits_bytes(*t),
{
    let ghost base = out@;
    let chunks = t.chunks();
    let n = chunks.len();
    put_u32(out, n as u32);
    let ghost es = t.chunk_entries();
    let ghost rs = delta_records(es);
    let mut i: usize = 0;
    while i < n
        invariant
            n == chunks@.len() == es.len(),
            rs == delta_records(es),
            es == t.chunk_entries(),
            forall|j: int|
                0 <= j < chunks@.len() ==> (#[trigger] chunks@[j]).0 == es[j].0 && *chunks@[j].1
                    == es[j].1,
            i <= n,
            out@ == base + le32(n as u32) + rs.take(i as int).flatten(),
        decreases n - i,
    {
        proof {
            lemma_flatten_take_step(rs, i as int);
        }
        let (key, delta) = chunks[i];
        let ghost before = out@;
        put_i32(out, key.0);
        put_i32(out, key.1);
        put_i32(out, key.2);
        let nb = delta.blocks.len();
        put_u32(out, nb as u32);
        let ghost brs = block_records(delta.blocks.entries());
        let ghost mid = out@;
        let mut j: usize = 0;
        while j < nb
            invariant
                nb == delta.blocks.entries().len(),
                brs == block_records(delta.blocks.entries()),
                j <= nb,
                out@ == mid + brs.take(j as int).flatten(),
            decreases nb - j,
        {
            proof {
                lemma_flatten_take_step(brs, j as int);
            }
            put_u16(out, delta.blocks.key_at(j));
            put_u8(out, delta.blocks.value_at(j).0);
            j = j + 1;
            assert(out@ =~= mid + brs.take(j as int).flatten());
        }
        assert(brs.take(nb as int) =~= brs);
        let nm = delta.masks.len();
        put_u32(out, nm as u32);
        let ghost mrs = mask_records(delta.masks.entries());
        let ghost mid2 = out@;
        let mut k: usize = 0;
        while k < nm
            invariant
                nm == delta.masks.entries().len(),
                mrs == mask_records(delta.masks.entries()),
                k <= nm,
                out@ == mid2 + mrs.take(k as int).flatten(),
            decreases nm - k,
        {
            proof {
                lemma_flatten_take_step(mrs, k as int);
            }
            put_u16(out, delta.masks.key_at(k));
            let m = delta.masks.value_at(k);
            let mut b: usize = 0;
            let ghost mid3 = out@;
            while b < MASK_BYTES
                invariant
                    b <= MASK_BYTES,
                    m@.len() == MASK_BYTES,
                    out@ == mid3 + m@.take(b as int),
                decreases MASK_BYTES - b,
            {
                put_u8(out, m[b]);
                b = b + 1;
                assert(out@ =~= mid3 + m@.take(b as int));
            }
            k = k + 1;
            assert(out@ =~= mid2 + mrs.take(k as int).flatten());
        }
        assert(mrs.take(nm as int) =~= mrs);
        assert(out@ =~= before + rs[i as int]);
        i = i + 1;
        assert(out@ =~= base + le32(n as u32) + rs.take(i as int).flatten());
    }
    assert(rs.take(n as int) =~= rs);
    assert(out@ =~= base + edits_bytes(*t));
}

fn write_mobs(out: &mut Vec<u8>, mobs: &Vec<MobSave>)
    ensures
        final(out)@ == old(out)@ + mobs_bytes(mobs@),
{
    let ghost base = out@;
    let n = mobs.len();
    put_u32(out, n as u32);
    let ghost rs = mob_records(mobs@);
    let mut i: usize = 0;
    while i < n
        invariant
            n == mobs@.len(),
            rs == mob_records(mobs@),
            i <= n,
            out@ == base + le32(n as u32) + rs.take(i as int).flatten(),
        decreases n - i,
    {
        proof {
            lemma_flatten_take_step(rs, i as int);
        }
        let m = mobs[i];
        let ghost before = out@;
        put_u8(out, mob_kind_code(m.kind));
        put_u32(out, m.pos[0]);
        put_u32(out, m.pos[1]);
        put_u32(out, m.pos[2]);
        put_u32(out, m.vel[0]);
        put_u32(out, m.vel[1]);
        put_u32(out, m.vel[2]);
        put_u32(out, m.yaw);
        put_u32(out, m.health);
        put_u8(out, if m.on_ground { 1 } else { 0 });
        assert(out@ =~= before + rs[i as int]);
        i = i + 1;
        assert(out@ =~= base + le32(n as u32) + rs.take(i as int).flatten());
    }
    assert(rs.take(n as int) =~= rs);
}

fn write_containers(out: &mut Vec<u8>, cs: &OrderedMap<BlockPos, ContainerSave>)
    requires
        cs.wf(),
    ensures
        final(out)@ == old(out)@ + containers_bytes(*cs),
{
    let ghost base = out@;
    let n = cs.len();
    put_u32(out, n as u32);
    let ghost rs = container_records(cs.entries());
    let mut i: usize = 0;
    while i < n
        invariant
            n == cs.entries().len(),
            rs == container_records(cs.entries()),
            i <= n,
            out@ == base + le32(n as u32) + rs.take(i as int).flatten(),
        decreases n - i,
    {
        proof {
            lemma_flatten_take_step(rs, i as int);
        }
        let pos = cs.key_at(i);
        let c = cs.value_at(i);
        let ghost before = out@;
        put_i32(out, pos.0);
        put_i32(out, pos.1);
        put_i32(out, pos.2);
        put_u16(out, c.kind.0);
        let slots = if c.slots.len() <= MAX_CONTAINER_SLOTS {
            c.slots.len()
        } else {
            MAX_CONTAINER_SLOTS
        };
        let fields = if c.fields.len() <= MAX_CONTAINER_FIELDS {
            c.fields.len()
        } else {
            MAX_CONTAINER_FIELDS
        };
        put_u8(out, slots as u8);
        let occupied = count_occupied(c.slots.as_slice(), slots);
        put_u8(out, occupied as u8);
        write_occupied(out, c.slots.as_slice(), slots);
        put_u8(out, fields as u8);
        let ghost frs = field_records(c.fields@.take(fields as int));
        let ghost mid = out@;
        let mut j: usize = 0;
        while j < fields
            invariant
                fields <= c.fields@.len(),
                frs == field_records(c.fields@.take(fields as int)),
                j <= fields,
                out@ == mid + frs.take(j as int).flatten(),
            decreases fields - j,
        {
            proof {
                lemma_flatten_take_step(frs, j as int);
            }
            put_u32(out, c.fields[j]);
            j = j + 1;
            assert(out@ =~= mid + frs.take(j as int).flatten());
        }
        assert(frs.take(fields as int) =~= frs);
        assert(out@ =~= before + rs[i as int]);
        i = i + 1;
        assert(out@ =~= base + le32(n as u32) + rs.take(i as int).flatten());
    }
    assert(rs.take(n as int) =~= rs);
}

/// Serialize a save into bytes, exactly as [`save_bytes`] lays them out.
pub fn save_to_bytes(data: &SaveData) -> (r: Vec<u8>)
    ensures
        r@ == save_bytes(*data),
{
    proof {
        use_type_invariant(&data.edits);
        use_type_invariant(&data.containers);
    }
    let mut out: Vec<u8> = Vec::new();
    put_u8(&mut out, MAGIC[0]);
    put_u8(&mut out, MAGIC[1]);
    put_u8(&mut out, MAGIC[2]);
    put_u8(&mut out, MAGIC[3]);
    assert(out@ =~= magic_bytes());
    put_u32(&mut out, VERSION);
    put_u32(&mut out, data.seed);
    let p = data.player;
    put_u32(&mut out, p.pos[0]);
    put_u32(&mut out, p.pos[1]);
    put_u32(&mut out, p.pos[2]);
    put_u32(&mut out, p.yaw);
    put_u32(&mut out, p.pitch);
    put_u32(&mut out, p.health);
    let ghost header = out@;
    assert(header =~= magic_bytes() + le32(VERSION) + le32(data.seed) + player_bytes(p));
    put_u8(&mut out, data.inventory.selected() as u8);
    let slots = data.inventory.slots().as_slice();
    let occupied = count_occupied(slots, 36);
    assert(slots@.take(36) =~= slots@);
    put_u32(&mut out, occupied as u32);
    write_occupied(&mut out, slots, 36);
    assert(out@ =~= header + inventory_bytes(data.inventory@.selected, data.inventory@.slots));
    let ghost with_inventory = out@;
    write_edits(&mut out, &data.edits);
    write_mobs(&mut out, &data.mobs);
    write_containers(&mut out, &data.containers);
    assert(out@ =~= with_inventory + edits_bytes(data.edits) + mobs_bytes(data.mobs@)
        + containers_bytes(data.containers));
    out
}

} // verus!
