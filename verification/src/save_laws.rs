//! What the save format promises as a whole: everything a save holds comes
//! back from its bytes exactly.
use vstd::prelude::*;
use vstd::bytes::{lemma_auto_spec_u16_to_from_le_bytes, lemma_auto_spec_u32_to_from_le_bytes};
use vstd::seq_lib::lemma_concat_associative;
use crate::block::BlockId;
use crate::chunk::{all_bytes, MASK_BYTES};
use crate::inventory::ItemStack;
use crate::item::{item_known, max_durability_of, max_stack_of};
use crate::mob::max_health_bits_of;
use crate::ordered_map::{
    insert_all, lemma_insert_all, lemma_seq_map_at, seq_map, sorted_keys, has_key, index_of_key,
    MapKey,
};
use crate::save::{
    container_views, delta_wf, empty_delta, finite_bits, magic_bytes, mob_code_of,
    positive_bits, BlockPos, ChangeTracker, ChunkDelta, ChunkKey,
    ContainerSave, ContainerView, DeltaView, MobSave, PlayerSave, SaveData, SaveError,
    SaveView, TrackerView, VERSION,
};
use crate::save_read::{
    empty_slots, load_spec, parse_save, parse_blocks, parse_chunk, parse_chunks, parse_container,
    parse_container_list, parse_container_slots, parse_containers, parse_edits, parse_f32,
    parse_fields, parse_i32, parse_inventory, parse_inventory_slots, parse_live, parse_masks, parse_mob,
    parse_mob_list, parse_mobs, parse_player, parse_slot, parse_u16, parse_u32, parse_u8,
};
use crate::save_write::{
    block_records, container_record, container_records, containers_bytes, delta_record,
    delta_records, edits_bytes, field_records, inventory_bytes, le16, le32, le_i32, mask_records,
    mob_record, mob_records, mobs_bytes, player_bytes, save_bytes, slot_record, slot_records,
    some_count, lemma_some_count_le, written_fields, written_slots,
};

verus! {

// --- what a save must hold to come back exactly ------------------------------------

/// A stack the loader accepts unchanged: a known item, a possible count, and
/// no more durability than the item can have.
pub open spec fn stack_loadable(st: ItemStack) -> bool {
    &&& item_known(st.item.0)
    &&& 1 <= st.count <= max_stack_of(st.item.0)
    &&& st.durability <= max_durability_of(st.item.0)
}

pub open spec fn slots_loadable(slots: Seq<Option<ItemStack>>) -> bool {
    forall|i: int| 0 <= i < slots.len() && (#[trigger] slots[i]) is Some ==> stack_loadable(
        slots[i]->Some_0,
    )
}

/// A mob the loader accepts unchanged: finite numbers, and a health above
/// zero and no more than its kind's maximum.
pub open spec fn mob_loadable(m: MobSave) -> bool {
    &&& finite_bits(m.pos@[0]) && finite_bits(m.pos@[1]) && finite_bits(m.pos@[2])
    &&& finite_bits(m.vel@[0]) && finite_bits(m.vel@[1]) && finite_bits(m.vel@[2])
    &&& finite_bits(m.yaw)
    &&& positive_bits(m.health)
    &&& m.health <= max_health_bits_of(m.kind)
}

/// A container the loader accepts unchanged: within the slot and field
/// limits, loadable stacks, finite fields.
pub open spec fn container_loadable(c: ContainerSave) -> bool {
    &&& c.slots@.len() <= 64
    &&& c.fields@.len() <= 16
    &&& slots_loadable(c.slots@)
    &&& forall|i: int| 0 <= i < c.fields@.len() ==> finite_bits(#[trigger] c.fields@[i])
}

/// Everything a save needs for its bytes to load back as itself.
pub open spec fn save_loadable(d: SaveData) -> bool {
    &&& d.edits.wf()
    &&& d.containers.wf()
    &&& finite_bits(d.player.pos@[0]) && finite_bits(d.player.pos@[1]) && finite_bits(
        d.player.pos@[2],
    )
    &&& finite_bits(d.player.yaw) && finite_bits(d.player.pitch) && finite_bits(d.player.health)
    &&& 0 <= d.inventory@.selected < 9
    &&& slots_loadable(d.inventory@.slots)
    &&& d.edits.chunk_entries().len() <= u32::MAX
    &&& d.mobs@.len() <= u32::MAX
    &&& forall|i: int| 0 <= i < d.mobs@.len() ==> mob_loadable(#[trigger] d.mobs@[i])
    &&& d.containers.entries().len() <= u32::MAX
    &&& forall|p: BlockPos| #[trigger] d.containers@.contains_key(p) ==> container_loadable(
        d.containers@[p],
    )
}

// --- primitives --------------------------------------------------------------------

proof fn lemma_reads_u8(x: u8, r: Seq<u8>)
    ensures
        parse_u8(seq![x] + r) == Ok::<(u8, Seq<u8>), SaveError>((x, r)),
{
    assert((seq![x] + r).skip(1) =~= r);
}

proof fn lemma_reads_u16(x: u16, r: Seq<u8>)
    ensures
        parse_u16(le16(x) + r) == Ok::<(u16, Seq<u8>), SaveError>((x, r)),
{
    lemma_auto_spec_u16_to_from_le_bytes();
    assert(le16(x).len() == 2);
    assert((le16(x) + r).take(2) =~= le16(x));
    assert((le16(x) + r).skip(2) =~= r);
}

proof fn lemma_reads_u32(x: u32, r: Seq<u8>)
    ensures
        parse_u32(le32(x) + r) == Ok::<(u32, Seq<u8>), SaveError>((x, r)),
        le32(x).len() == 4,
{
    lemma_auto_spec_u32_to_from_le_bytes();
    assert(le32(x).len() == 4);
    assert((le32(x) + r).take(4) =~= le32(x));
    assert((le32(x) + r).skip(4) =~= r);
}

proof fn lemma_reads_i32(x: i32, r: Seq<u8>)
    ensures
        parse_i32(le_i32(x) + r) == Ok::<(i32, Seq<u8>), SaveError>((x, r)),
{
    lemma_reads_u32(x as u32, r);
    assert((x as u32) as i32 == x) by (bit_vector);
}

proof fn lemma_reads_f32(x: u32, r: Seq<u8>)
    requires
        finite_bits(x),
    ensures
        parse_f32(le32(x) + r) == Ok::<(u32, Seq<u8>), SaveError>((x, r)),
{
    lemma_reads_u32(x, r);
}

/// The pieces of a sequence from `i` on concatenate to piece `i` followed by
/// the pieces after it.
proof fn lemma_flatten_from(rs: Seq<Seq<u8>>, i: int)
    requires
        0 <= i < rs.len(),
    ensures
        rs.subrange(i, rs.len() as int).flatten() == rs[i] + rs.subrange(i + 1, rs.len() as int).flatten(),
{
    let t = rs.subrange(i, rs.len() as int);
    assert(t.drop_first() =~= rs.subrange(i + 1, rs.len() as int));
    assert(t.first() == rs[i]);
}

proof fn lemma_flatten_first(rs: Seq<Seq<u8>>)
    requires
        rs.len() > 0,
    ensures
        rs.flatten() == rs[0] + rs.drop_first().flatten(),
{
}

proof fn lemma_flatten_empty(rs: Seq<Seq<u8>>, r: Seq<u8>)
    requires
        rs.len() == 0,
    ensures
        rs.flatten() + r == r,
{
    assert(rs.flatten() =~= Seq::<u8>::empty());
    assert(Seq::<u8>::empty() + r =~= r);
}

proof fn lemma_some_count_first(s: Seq<Option<ItemStack>>)
    requires
        s.len() > 0,
    ensures
        some_count(s) == (if s[0] is Some {
            1nat
        } else {
            0nat
        }) + some_count(s.drop_first()),
    decreases s.len(),
{
    if s.len() == 1 {
        assert(s.drop_first() =~= Seq::<Option<ItemStack>>::empty());
        assert(s.drop_last() =~= Seq::<Option<ItemStack>>::empty());
    } else {
        lemma_some_count_first(s.drop_last());
        assert(s.drop_last().drop_first() =~= s.drop_first().drop_last());
        assert(s.drop_first().last() == s.last());
    }
}

// --- item slots --------------------------------------------------------------------

proof fn lemma_reads_slot(i: int, st: ItemStack, r: Seq<u8>)
    requires
        0 <= i < 256,
        stack_loadable(st),
    ensures
        parse_slot(slot_record(i, Some(st)) + r) == Ok::<((u8, ItemStack), Seq<u8>), SaveError>(
            ((i as u8, st), r),
        ),
{
    let r3 = le16(st.durability) + r;
    let r2 = seq![st.count] + r3;
    let r1 = le16(st.item.0) + r2;
    assert(slot_record(i, Some(st)) + r =~= seq![i as u8] + r1);
    lemma_reads_u8(i as u8, r1);
    lemma_reads_u16(st.item.0, r2);
    lemma_reads_u8(st.count, r3);
    lemma_reads_u16(st.durability, r);
}

proof fn lemma_reads_inventory_slots(
    slots: Seq<Option<ItemStack>>,
    i: int,
    acc: Seq<Option<ItemStack>>,
    r: Seq<u8>,
)
    requires
        slots.len() == 36,
        slots_loadable(slots),
        0 <= i <= 36,
        acc.len() == 36,
        forall|j: int| 0 <= j < i ==> acc[j] == slots[j],
        forall|j: int| i <= j < 36 ==> acc[j] is None,
    ensures
        parse_inventory_slots(
            slot_records(slots).subrange(i, 36).flatten() + r,
            some_count(slots.subrange(i, 36)),
            acc,
        ) == Ok::<(Seq<Option<ItemStack>>, Seq<u8>), SaveError>((slots, r)),
    decreases 36 - i,
{
    let rs = slot_records(slots);
    if i == 36 {
        lemma_flatten_empty(rs.subrange(36, 36), r);
        assert(slots.subrange(36, 36) =~= Seq::<Option<ItemStack>>::empty());
        assert(acc =~= slots);
    } else {
        lemma_flatten_from(rs, i);
        lemma_some_count_first(slots.subrange(i, 36));
        assert(slots.subrange(i, 36).drop_first() =~= slots.subrange(i + 1, 36));
        let tail = rs.subrange(i + 1, 36).flatten() + r;
        assert(rs.subrange(i, 36).flatten() + r =~= rs[i] + tail);
        match slots[i] {
            None => {
                assert(rs[i] =~= Seq::<u8>::empty());
                assert(rs[i] + tail =~= tail);
                lemma_reads_inventory_slots(slots, i + 1, acc, r);
            },
            Some(st) => {
                lemma_reads_slot(i, st, tail);
                let acc2 = acc.update(i, Some(st));
                lemma_reads_inventory_slots(slots, i + 1, acc2, r);
            },
        }
    }
}

proof fn lemma_reads_container_slots(
    slots: Seq<Option<ItemStack>>,
    i: int,
    acc: Seq<Option<ItemStack>>,
    r: Seq<u8>,
)
    requires
        slots.len() <= 64,
        slots_loadable(slots),
        0 <= i <= slots.len(),
        acc.len() == slots.len(),
        forall|j: int| 0 <= j < i ==> acc[j] == slots[j],
        forall|j: int| i <= j < slots.len() ==> acc[j] is None,
    ensures
        parse_container_slots(
            slot_records(slots).subrange(i, slots.len() as int).flatten() + r,
            some_count(slots.subrange(i, slots.len() as int)),
            acc,
        ) == Ok::<(Seq<Option<ItemStack>>, Seq<u8>), SaveError>((slots, r)),
    decreases slots.len() - i,
{
    let n = slots.len() as int;
    let rs = slot_records(slots);
    if i == n {
        lemma_flatten_empty(rs.subrange(n, n), r);
        assert(slots.subrange(n, n) =~= Seq::<Option<ItemStack>>::empty());
        assert(acc =~= slots);
    } else {
        lemma_flatten_from(rs, i);
        lemma_some_count_first(slots.subrange(i, n));
        assert(slots.subrange(i, n).drop_first() =~= slots.subrange(i + 1, n));
        let tail = rs.subrange(i + 1, n).flatten() + r;
        assert(rs.subrange(i, n).flatten() + r =~= rs[i] + tail);
        match slots[i] {
            None => {
                assert(rs[i] =~= Seq::<u8>::empty());
                assert(rs[i] + tail =~= tail);
                lemma_reads_container_slots(slots, i + 1, acc, r);
            },
            Some(st) => {
                lemma_reads_slot(i, st, tail);
                let acc2 = acc.update(i, Some(st));
                lemma_reads_container_slots(slots, i + 1, acc2, r);
            },
        }
    }
}

// --- chunk edits -------------------------------------------------------------------

proof fn lemma_reads_blocks(es: Seq<(u16, BlockId)>, acc: Map<u16, BlockId>, r: Seq<u8>)
    requires
        forall|j: int| 0 <= j < es.len() ==> (#[trigger] es[j]).0 < 4096,
    ensures
        parse_blocks(block_records(es).flatten() + r, es.len(), acc) == Ok::<
            (Map<u16, BlockId>, Seq<u8>),
            SaveError,
        >((insert_all(acc, es), r)),
    decreases es.len(),
{
    let rs = block_records(es);
    if es.len() == 0 {
        lemma_flatten_empty(rs, r);
    } else {
        lemma_flatten_first(rs);
        assert(rs.drop_first() =~= block_records(es.drop_first()));
        let tail = block_records(es.drop_first()).flatten() + r;
        assert(rs.flatten() + r =~= le16(es[0].0) + (seq![es[0].1.0] + tail));
        lemma_reads_u16(es[0].0, seq![es[0].1.0] + tail);
        lemma_reads_u8(es[0].1.0, tail);
        assert(es[0].0 < 4096);
        assert(BlockId(es[0].1.0) == es[0].1);
        lemma_reads_blocks(es.drop_first(), acc.insert(es[0].0, es[0].1), r);
    }
}

/// Entries with their values replaced by `f` of them.
pub open spec fn map_entry_values<K, V, W>(es: Seq<(K, V)>, f: spec_fn(V) -> W) -> Seq<(K, W)> {
    es.map_values(|e: (K, V)| (e.0, f(e.1)))
}

proof fn lemma_map_entry_values<K: MapKey, V, W>(es: Seq<(K, V)>, f: spec_fn(V) -> W)
    requires
        sorted_keys(es),
    ensures
        sorted_keys(map_entry_values(es, f)),
        seq_map(map_entry_values(es, f)) == seq_map(es).map_values(f),
{
    let ms = map_entry_values(es, f);
    assert forall|i: int, j: int| 0 <= i < j < ms.len() implies (#[trigger] ms[i]).0.precedes(
        (#[trigger] ms[j]).0,
    ) by {
        assert(es[i].0.precedes(es[j].0));
    }
    assert forall|k: K| #[trigger] seq_map(ms).contains_key(k) <==> seq_map(es).map_values(
        f,
    ).contains_key(k) by {
        if has_key(es, k) {
            let i = choose|i: int| 0 <= i < es.len() && (#[trigger] es[i]).0 == k;
            assert(ms[i].0 == k);
        }
        if has_key(ms, k) {
            let i = choose|i: int| 0 <= i < ms.len() && (#[trigger] ms[i]).0 == k;
            assert(es[i].0 == k);
        }
    }
    assert forall|k: K| #[trigger] seq_map(ms).contains_key(k) implies seq_map(ms)[k] == seq_map(
        es,
    ).map_values(f)[k] by {
        let i = index_of_key(ms, k);
        lemma_seq_map_at(ms, i);
        assert(es[i].0 == k);
        lemma_seq_map_at(es, i);
    }
    assert(seq_map(ms) =~= seq_map(es).map_values(f));
}

proof fn lemma_reads_masks(es: Seq<(u16, [u8; MASK_BYTES])>, acc: Map<u16, Seq<u8>>, r: Seq<u8>)
    requires
        forall|j: int| 0 <= j < es.len() ==> (#[trigger] es[j]).0 < 4096 && !all_bytes(es[j].1@, 0),
    ensures
        parse_masks(mask_records(es).flatten() + r, es.len(), acc) == Ok::<
            (Map<u16, Seq<u8>>, Seq<u8>),
            SaveError,
        >((insert_all(acc, map_entry_values(es, |m: [u8; MASK_BYTES]| m@)), r)),
    decreases es.len(),
{
    let rs = mask_records(es);
    let f = |m: [u8; MASK_BYTES]| m@;
    if es.len() == 0 {
        lemma_flatten_empty(rs, r);
    } else {
        lemma_flatten_first(rs);
        assert(rs.drop_first() =~= mask_records(es.drop_first()));
        let tail = mask_records(es.drop_first()).flatten() + r;
        let m = es[0].1@;
        assert(rs.flatten() + r =~= le16(es[0].0) + (m + tail));
        lemma_reads_u16(es[0].0, m + tail);
        assert((m + tail).take(64) =~= m);
        assert((m + tail).skip(64) =~= tail);
        assert(es[0].0 < 4096 && !all_bytes(m, 0));
        lemma_reads_masks(es.drop_first(), acc.insert(es[0].0, m), r);
        assert(map_entry_values(es, f).drop_first() =~= map_entry_values(es.drop_first(), f));
        assert(map_entry_values(es, f)[0] == (es[0].0, m));
    }
}

/// Sorted chunk indices that all lie inside a chunk are at most a chunk's
/// worth.
proof fn lemma_sorted_indices_len<V>(es: Seq<(u16, V)>)
    requires
        sorted_keys(es),
        forall|j: int| 0 <= j < es.len() ==> (#[trigger] es[j]).0 < 4096,
    ensures
        es.len() <= 4096,
{
    assert forall|j: int| 0 <= j < es.len() implies (#[trigger] es[j]).0 >= j by {
        lemma_index_at_least(es, j);
    }
    if es.len() > 4096 {
        assert(es[4096].0 >= 4096);
    }
}

proof fn lemma_index_at_least<V>(es: Seq<(u16, V)>, j: int)
    requires
        sorted_keys(es),
        0 <= j < es.len(),
    ensures
        es[j].0 >= j,
    decreases j,
{
    if j > 0 {
        lemma_index_at_least(es, j - 1);
        assert(es[j - 1].0.precedes(es[j].0));
    }
}

proof fn lemma_delta_entries(d: ChunkDelta)
    requires
        delta_wf(d),
    ensures
        forall|j: int| 0 <= j < d.blocks.entries().len() ==> (#[trigger] d.blocks.entries()[j]).0 < 4096,
        forall|j: int|
            0 <= j < d.masks.entries().len() ==> (#[trigger] d.masks.entries()[j]).0 < 4096
                && !all_bytes(d.masks.entries()[j].1@, 0),
        d.blocks.entries().len() <= 4096,
        d.masks.entries().len() <= 4096,
{
    assert forall|j: int| 0 <= j < d.blocks.entries().len() implies (#[trigger] d.blocks.entries()[j]).0
        < 4096 by {
        lemma_seq_map_at(d.blocks.entries(), j);
    }
    assert forall|j: int| 0 <= j < d.masks.entries().len() implies (#[trigger] d.masks.entries()[j]).0
        < 4096 && !all_bytes(d.masks.entries()[j].1@, 0) by {
        lemma_seq_map_at(d.masks.entries(), j);
        let k = d.masks.entries()[j].0;
        assert(d.masks@.contains_key(k));
        assert(d.masks@[k] == d.masks.entries()[j].1);
    }
    lemma_sorted_indices_len(d.blocks.entries());
    lemma_sorted_indices_len(d.masks.entries());
}

proof fn lemma_blocks_section(d: ChunkDelta, r: Seq<u8>)
    requires
        delta_wf(d),
    ensures
        parse_blocks(block_records(d.blocks.entries()).flatten() + r, d.blocks.entries().len(), Map::empty())
            == Ok::<(Map<u16, BlockId>, Seq<u8>), SaveError>((d.blocks@, r)),
{
    lemma_delta_entries(d);
    let bes = d.blocks.entries();
    lemma_reads_blocks(bes, Map::empty(), r);
    lemma_insert_all(Map::<u16, BlockId>::empty(), bes);
    assert(Map::<u16, BlockId>::empty().union_prefer_right(seq_map(bes)) =~= seq_map(bes));
}

proof fn lemma_masks_section(d: ChunkDelta, r: Seq<u8>)
    requires
        delta_wf(d),
    ensures
        parse_masks(mask_records(d.masks.entries()).flatten() + r, d.masks.entries().len(), Map::empty())
            == Ok::<(Map<u16, Seq<u8>>, Seq<u8>), SaveError>((d@.masks, r)),
{
    lemma_delta_entries(d);
    let mes = d.masks.entries();
    let f = |m: [u8; MASK_BYTES]| m@;
    lemma_reads_masks(mes, Map::empty(), r);
    lemma_map_entry_values(mes, f);
    lemma_insert_all(Map::<u16, Seq<u8>>::empty(), map_entry_values(mes, f));
    assert(Map::<u16, Seq<u8>>::empty().union_prefer_right(seq_map(map_entry_values(mes, f)))
        =~= seq_map(map_entry_values(mes, f)));
    assert(seq_map(mes).map_values(f) =~= d@.masks);
}

proof fn lemma_reads_chunk(e: (ChunkKey, ChunkDelta), r: Seq<u8>)
    requires
        delta_wf(e.1),
    ensures
        parse_chunk(delta_record(e) + r) == Ok::<((ChunkKey, DeltaView), Seq<u8>), SaveError>(
            ((e.0, e.1@), r),
        ),
{
    let d = e.1;
    lemma_delta_entries(d);
    let bes = d.blocks.entries();
    let mes = d.masks.entries();
    let nb = bes.len() as u32;
    let nm = mes.len() as u32;
    let r7 = mask_records(mes).flatten() + r;
    let r6 = le32(nm) + r7;
    let r5 = block_records(bes).flatten() + r6;
    let r4 = le32(nb) + r5;
    let r3 = le_i32(e.0.2) + r4;
    let r2 = le_i32(e.0.1) + r3;
    let a = le_i32(e.0.0);
    lemma_concat_associative(a + le_i32(e.0.1) + le_i32(e.0.2) + le32(nb) + block_records(bes).flatten()
        + le32(nm), mask_records(mes).flatten(), r);
    lemma_concat_associative(a + le_i32(e.0.1) + le_i32(e.0.2) + le32(nb) + block_records(bes).flatten(),
        le32(nm), r7);
    lemma_concat_associative(a + le_i32(e.0.1) + le_i32(e.0.2) + le32(nb), block_records(bes).flatten(), r6);
    lemma_concat_associative(a + le_i32(e.0.1) + le_i32(e.0.2), le32(nb), r5);
    lemma_concat_associative(a + le_i32(e.0.1), le_i32(e.0.2), r4);
    lemma_concat_associative(a, le_i32(e.0.1), r3);
    assert(delta_record(e) + r == le_i32(e.0.0) + r2);
    lemma_reads_i32(e.0.0, r2);
    lemma_reads_i32(e.0.1, r3);
    lemma_reads_i32(e.0.2, r4);
    lemma_reads_u32(nb, r5);
    lemma_blocks_section(d, r6);
    lemma_reads_u32(nm, r7);
    lemma_masks_section(d, r);
}

/// A delta the tracker keeps is never the empty delta.
proof fn lemma_delta_not_empty(d: ChunkDelta)
    requires
        delta_wf(d),
    ensures
        d@ != empty_delta(),
{
    if d@ == empty_delta() {
        assert(d.blocks@ =~= Map::<u16, BlockId>::empty());
        assert(d.masks@.dom() =~= d@.masks.dom());
        assert(d.masks@ =~= Map::<u16, [u8; MASK_BYTES]>::empty());
    }
}

proof fn lemma_reads_chunks(es: Seq<(ChunkKey, ChunkDelta)>, acc: TrackerView, r: Seq<u8>)
    requires
        forall|j: int| 0 <= j < es.len() ==> delta_wf(#[trigger] es[j].1),
    ensures
        parse_chunks(delta_records(es).flatten() + r, es.len(), acc) == Ok::<
            (TrackerView, Seq<u8>),
            SaveError,
        >((insert_all(acc, map_entry_values(es, |d: ChunkDelta| d@)), r)),
    decreases es.len(),
{
    let rs = delta_records(es);
    let f = |d: ChunkDelta| d@;
    if es.len() == 0 {
        lemma_flatten_empty(rs, r);
    } else {
        lemma_flatten_first(rs);
        assert(rs.drop_first() =~= delta_records(es.drop_first()));
        let tail = delta_records(es.drop_first()).flatten() + r;
        assert(rs.flatten() + r =~= delta_record(es[0]) + tail);
        assert(delta_wf(es[0].1));
        lemma_reads_chunk(es[0], tail);
        lemma_delta_not_empty(es[0].1);
        lemma_reads_chunks(es.drop_first(), acc.insert(es[0].0, es[0].1@), r);
        assert(map_entry_values(es, f).drop_first() =~= map_entry_values(es.drop_first(), f));
        assert(map_entry_values(es, f)[0] == (es[0].0, es[0].1@));
    }
}

proof fn lemma_reads_edits(t: ChangeTracker, r: Seq<u8>)
    requires
        t.wf(),
        t.chunk_entries().len() <= u32::MAX,
    ensures
        parse_edits(edits_bytes(t) + r) == Ok::<(TrackerView, Seq<u8>), SaveError>((t@, r)),
{
    let es = t.chunk_entries();
    let f = |d: ChunkDelta| d@;
    t.lemma_chunk_map();
    assert forall|j: int| 0 <= j < es.len() implies delta_wf(#[trigger] es[j].1) by {
        lemma_seq_map_at(es, j);
        assert(t.chunk_map().contains_key(es[j].0));
    }
    let tail = delta_records(es).flatten() + r;
    assert(edits_bytes(t) + r =~= le32(es.len() as u32) + tail);
    lemma_reads_u32(es.len() as u32, tail);
    lemma_reads_chunks(es, TrackerView::empty(), r);
    lemma_map_entry_values(es, f);
    lemma_insert_all(TrackerView::empty(), map_entry_values(es, f));
    assert(TrackerView::empty().union_prefer_right(seq_map(map_entry_values(es, f))) =~= seq_map(
        map_entry_values(es, f),
    ));
    assert(seq_map(es).map_values(f) =~= t@);
}

// --- the player and the inventory --------------------------------------------------

proof fn lemma_reads_player(p: PlayerSave, r: Seq<u8>)
    requires
        finite_bits(p.pos@[0]) && finite_bits(p.pos@[1]) && finite_bits(p.pos@[2]),
        finite_bits(p.yaw) && finite_bits(p.pitch) && finite_bits(p.health),
    ensures
        parse_player(player_bytes(p) + r) == Ok::<(PlayerSave, Seq<u8>), SaveError>((p, r)),
{
    let r5 = le32(p.health) + r;
    let r4 = le32(p.pitch) + r5;
    let r3 = le32(p.yaw) + r4;
    let r2 = le32(p.pos@[2]) + r3;
    let r1 = le32(p.pos@[1]) + r2;
    assert(player_bytes(p) + r =~= le32(p.pos@[0]) + r1);
    lemma_reads_f32(p.pos@[0], r1);
    lemma_reads_f32(p.pos@[1], r2);
    lemma_reads_f32(p.pos@[2], r3);
    lemma_reads_f32(p.yaw, r4);
    lemma_reads_f32(p.pitch, r5);
    lemma_reads_f32(p.health, r);
    assert([p.pos@[0], p.pos@[1], p.pos@[2]] =~= p.pos);
}

proof fn lemma_reads_inventory(selected: int, slots: Seq<Option<ItemStack>>, r: Seq<u8>)
    requires
        0 <= selected < 9,
        slots.len() == 36,
        slots_loadable(slots),
    ensures
        parse_inventory(inventory_bytes(selected, slots) + r) == Ok::<
            ((int, Seq<Option<ItemStack>>), Seq<u8>),
            SaveError,
        >(((selected, slots), r)),
{
    let n = some_count(slots);
    lemma_some_count_le(slots);
    let rs = slot_records(slots);
    let tail = rs.flatten() + r;
    assert(inventory_bytes(selected, slots) + r =~= seq![selected as u8] + (le32(n as u32) + tail));
    lemma_reads_u8(selected as u8, le32(n as u32) + tail);
    lemma_reads_u32(n as u32, tail);
    assert(rs.subrange(0, 36) =~= rs);
    assert(slots.subrange(0, 36) =~= slots);
    lemma_reads_inventory_slots(slots, 0, empty_slots(36), r);
}

// --- mobs and containers -----------------------------------------------------------

proof fn lemma_reads_mob(m: MobSave, r: Seq<u8>)
    requires
        mob_loadable(m),
    ensures
        parse_mob(mob_record(m) + r) == Ok::<(MobSave, Seq<u8>), SaveError>((m, r)),
{
    let flag: u8 = if m.on_ground {
        1
    } else {
        0
    };
    let r8 = seq![flag] + r;
    let r7 = le32(m.health) + r8;
    let r6 = le32(m.yaw) + r7;
    let r5 = le32(m.vel@[2]) + r6;
    let r4 = le32(m.vel@[1]) + r5;
    let r3 = le32(m.vel@[0]) + r4;
    let r2 = le32(m.pos@[2]) + r3;
    let r1 = le32(m.pos@[1]) + r2;
    let r0 = le32(m.pos@[0]) + r1;
    let c = seq![mob_code_of(m.kind)];
    let x0 = c + le32(m.pos@[0]);
    let x1 = x0 + le32(m.pos@[1]);
    let x2 = x1 + le32(m.pos@[2]);
    let x3 = x2 + le32(m.vel@[0]);
    let x4 = x3 + le32(m.vel@[1]);
    let x5 = x4 + le32(m.vel@[2]);
    let x6 = x5 + le32(m.yaw);
    let x7 = x6 + le32(m.health);
    assert(mob_record(m) == x7 + seq![flag]);
    lemma_concat_associative(x7, seq![flag], r);
    lemma_concat_associative(x6, le32(m.health), r8);
    lemma_concat_associative(x5, le32(m.yaw), r7);
    lemma_concat_associative(x4, le32(m.vel@[2]), r6);
    lemma_concat_associative(x3, le32(m.vel@[1]), r5);
    lemma_concat_associative(x2, le32(m.vel@[0]), r4);
    lemma_concat_associative(x1, le32(m.pos@[2]), r3);
    lemma_concat_associative(x0, le32(m.pos@[1]), r2);
    lemma_concat_associative(c, le32(m.pos@[0]), r1);
    assert(mob_record(m) + r == seq![mob_code_of(m.kind)] + r0);
    lemma_reads_u8(mob_code_of(m.kind), r0);
    lemma_reads_f32(m.pos@[0], r1);
    lemma_reads_f32(m.pos@[1], r2);
    lemma_reads_f32(m.pos@[2], r3);
    lemma_reads_f32(m.vel@[0], r4);
    lemma_reads_f32(m.vel@[1], r5);
    lemma_reads_f32(m.vel@[2], r6);
    lemma_reads_f32(m.yaw, r7);
    crate::save::lemma_positive_bits_finite(m.health);
    lemma_reads_f32(m.health, r8);
    lemma_reads_u8(flag, r);
    assert([m.pos@[0], m.pos@[1], m.pos@[2]] =~= m.pos);
    assert([m.vel@[0], m.vel@[1], m.vel@[2]] =~= m.vel);
}

proof fn lemma_reads_mob_list(ms: Seq<MobSave>, acc: Seq<MobSave>, r: Seq<u8>)
    requires
        forall|i: int| 0 <= i < ms.len() ==> mob_loadable(#[trigger] ms[i]),
    ensures
        parse_mob_list(mob_records(ms).flatten() + r, ms.len(), acc) == Ok::<
            (Seq<MobSave>, Seq<u8>),
            SaveError,
        >((acc + ms, r)),
    decreases ms.len(),
{
    let rs = mob_records(ms);
    if ms.len() == 0 {
        lemma_flatten_empty(rs, r);
        assert(acc + ms =~= acc);
    } else {
        lemma_flatten_first(rs);
        assert(rs.drop_first() =~= mob_records(ms.drop_first()));
        let tail = mob_records(ms.drop_first()).flatten() + r;
        assert(rs.flatten() + r =~= mob_record(ms[0]) + tail);
        assert(mob_loadable(ms[0]));
        lemma_reads_mob(ms[0], tail);
        lemma_reads_mob_list(ms.drop_first(), acc.push(ms[0]), r);
        assert(acc.push(ms[0]) + ms.drop_first() =~= acc + ms);
    }
}

proof fn lemma_reads_mobs(ms: Seq<MobSave>, r: Seq<u8>)
    requires
        ms.len() <= u32::MAX,
        forall|i: int| 0 <= i < ms.len() ==> mob_loadable(#[trigger] ms[i]),
    ensures
        parse_mobs(mobs_bytes(ms) + r) == Ok::<(Seq<MobSave>, Seq<u8>), SaveError>((ms, r)),
{
    let tail = mob_records(ms).flatten() + r;
    assert(mobs_bytes(ms) + r =~= le32(ms.len() as u32) + tail);
    lemma_reads_u32(ms.len() as u32, tail);
    lemma_reads_mob_list(ms, Seq::empty(), r);
    assert(Seq::<MobSave>::empty() + ms =~= ms);
}

proof fn lemma_reads_fields(fs: Seq<u32>, acc: Seq<u32>, r: Seq<u8>)
    requires
        forall|i: int| 0 <= i < fs.len() ==> finite_bits(#[trigger] fs[i]),
    ensures
        parse_fields(field_records(fs).flatten() + r, fs.len(), acc) == Ok::<
            (Seq<u32>, Seq<u8>),
            SaveError,
        >((acc + fs, r)),
    decreases fs.len(),
{
    let rs = field_records(fs);
    if fs.len() == 0 {
        lemma_flatten_empty(rs, r);
        assert(acc + fs =~= acc);
    } else {
        lemma_flatten_first(rs);
        assert(rs.drop_first() =~= field_records(fs.drop_first()));
        let tail = field_records(fs.drop_first()).flatten() + r;
        assert(rs.flatten() + r =~= le32(fs[0]) + tail);
        assert(finite_bits(fs[0]));
        lemma_reads_f32(fs[0], tail);
        lemma_reads_fields(fs.drop_first(), acc.push(fs[0]), r);
        assert(acc.push(fs[0]) + fs.drop_first() =~= acc + fs);
    }
}

proof fn lemma_reads_container(e: (BlockPos, ContainerSave), r: Seq<u8>)
    requires
        container_loadable(e.1),
    ensures
        parse_container(container_record(e) + r) == Ok::<
            ((BlockPos, ContainerView), Seq<u8>),
            SaveError,
        >(((e.0, e.1@), r)),
{
    let c = e.1;
    let slots = c.slots@;
    let fields = c.fields@;
    assert(slots.take(written_slots(c) as int) =~= slots);
    assert(fields.take(written_fields(c) as int) =~= fields);
    let ns = slots.len() as u8;
    let nf = fields.len() as u8;
    let occ = some_count(slots);
    lemma_some_count_le(slots);
    let r9 = field_records(fields).flatten() + r;
    let r8 = seq![nf] + r9;
    let r7 = slot_records(slots).flatten() + r8;
    let r6 = seq![occ as u8] + r7;
    let r5 = seq![ns] + r6;
    let r4 = le16(c.kind.0) + r5;
    let r3 = le_i32(e.0.2) + r4;
    let r2 = le_i32(e.0.1) + r3;
    let x0 = le_i32(e.0.0);
    let x1 = x0 + le_i32(e.0.1);
    let x2 = x1 + le_i32(e.0.2);
    let x3 = x2 + le16(c.kind.0);
    let x4 = x3 + seq![ns];
    let x5 = x4 + seq![occ as u8];
    let x6 = x5 + slot_records(slots).flatten();
    let x7 = x6 + seq![nf];
    assert(container_record(e) == x7 + field_records(fields).flatten());
    lemma_concat_associative(x7, field_records(fields).flatten(), r);
    lemma_concat_associative(x6, seq![nf], r9);
    lemma_concat_associative(x5, slot_records(slots).flatten(), r8);
    lemma_concat_associative(x4, seq![occ as u8], r7);
    lemma_concat_associative(x3, seq![ns], r6);
    lemma_concat_associative(x2, le16(c.kind.0), r5);
    lemma_concat_associative(x1, le_i32(e.0.2), r4);
    lemma_concat_associative(x0, le_i32(e.0.1), r3);
    assert(container_record(e) + r == le_i32(e.0.0) + r2);
    lemma_reads_i32(e.0.0, r2);
    lemma_reads_i32(e.0.1, r3);
    lemma_reads_i32(e.0.2, r4);
    lemma_reads_u16(c.kind.0, r5);
    lemma_reads_u8(ns, r6);
    lemma_reads_u8(occ as u8, r7);
    let n = slots.len() as int;
    assert(slot_records(slots).subrange(0, n) =~= slot_records(slots));
    assert(slots.subrange(0, n) =~= slots);
    lemma_reads_container_slots(slots, 0, empty_slots(ns as nat), r8);
    lemma_reads_u8(nf, r9);
    lemma_reads_fields(fields, Seq::empty(), r);
    assert(Seq::<u32>::empty() + fields =~= fields);
}

proof fn lemma_reads_container_list(
    es: Seq<(BlockPos, ContainerSave)>,
    acc: Map<BlockPos, ContainerView>,
    r: Seq<u8>,
)
    requires
        sorted_keys(es),
        forall|j: int| 0 <= j < es.len() ==> container_loadable(#[trigger] es[j].1),
        forall|j: int| 0 <= j < es.len() ==> !acc.contains_key(#[trigger] es[j].0),
    ensures
        parse_container_list(container_records(es).flatten() + r, es.len(), acc) == Ok::<
            (Map<BlockPos, ContainerView>, Seq<u8>),
            SaveError,
        >((insert_all(acc, map_entry_values(es, |c: ContainerSave| c@)), r)),
    decreases es.len(),
{
    let rs = container_records(es);
    let f = |c: ContainerSave| c@;
    if es.len() == 0 {
        lemma_flatten_empty(rs, r);
    } else {
        lemma_flatten_first(rs);
        assert(rs.drop_first() =~= container_records(es.drop_first()));
        let tail = container_records(es.drop_first()).flatten() + r;
        assert(rs.flatten() + r =~= container_record(es[0]) + tail);
        assert(container_loadable(es[0].1));
        lemma_reads_container(es[0], tail);
        assert(!acc.contains_key(es[0].0));
        let acc2 = acc.insert(es[0].0, es[0].1@);
        let rest = es.drop_first();
        assert forall|i: int, j: int| 0 <= i < j < rest.len() implies (#[trigger] rest[i]).0.precedes(
            (#[trigger] rest[j]).0,
        ) by {
            assert(es[i + 1].0.precedes(es[j + 1].0));
        }
        assert forall|j: int| 0 <= j < rest.len() implies !acc2.contains_key(#[trigger] rest[j].0) by {
            assert(rest[j] == es[j + 1]);
            assert(es[0].0.precedes(es[j + 1].0));
            <BlockPos as MapKey>::lemma_irreflexive(es[0].0);
        }
        assert forall|j: int| 0 <= j < rest.len() implies container_loadable(#[trigger] rest[j].1) by {
            assert(rest[j] == es[j + 1]);
        }
        lemma_reads_container_list(rest, acc2, r);
        assert(map_entry_values(es, f).drop_first() =~= map_entry_values(rest, f));
        assert(map_entry_values(es, f)[0] == (es[0].0, es[0].1@));
    }
}

proof fn lemma_reads_containers(
    cs: crate::ordered_map::OrderedMap<BlockPos, ContainerSave>,
    r: Seq<u8>,
)
    requires
        cs.wf(),
        cs.entries().len() <= u32::MAX,
        forall|p: BlockPos| #[trigger] cs@.contains_key(p) ==> container_loadable(cs@[p]),
    ensures
        parse_containers(containers_bytes(cs) + r) == Ok::<
            (Map<BlockPos, ContainerView>, Seq<u8>),
            SaveError,
        >((container_views(cs@), r)),
{
    let es = cs.entries();
    let f = |c: ContainerSave| c@;
    assert forall|j: int| 0 <= j < es.len() implies container_loadable(#[trigger] es[j].1) by {
        lemma_seq_map_at(es, j);
        assert(cs@.contains_key(es[j].0));
    }
    let tail = container_records(es).flatten() + r;
    assert(containers_bytes(cs) + r =~= le32(es.len() as u32) + tail);
    lemma_reads_u32(es.len() as u32, tail);
    lemma_reads_container_list(es, Map::empty(), r);
    lemma_map_entry_values(es, f);
    lemma_insert_all(Map::<BlockPos, ContainerView>::empty(), map_entry_values(es, f));
    assert(Map::<BlockPos, ContainerView>::empty().union_prefer_right(
        seq_map(map_entry_values(es, f)),
    ) =~= seq_map(map_entry_values(es, f)));
    assert(seq_map(es).map_values(f) =~= container_views(cs@));
}

// --- the whole file ----------------------------------------------------------------

proof fn lemma_reads_live(d: SaveData)
    requires
        save_loadable(d),
    ensures
        parse_live(mobs_bytes(d.mobs@) + containers_bytes(d.containers), VERSION) == Ok::<
            ((Seq<MobSave>, Map<BlockPos, ContainerView>), Seq<u8>),
            SaveError,
        >(((d.mobs@, container_views(d.containers@)), Seq::<u8>::empty())),
{
    let sc = containers_bytes(d.containers);
    lemma_reads_mobs(d.mobs@, sc);
    assert(sc =~= containers_bytes(d.containers) + Seq::<u8>::empty());
    lemma_reads_containers(d.containers, Seq::<u8>::empty());
}

/// Every byte of a written save is read: the parse ends exactly at its end.
#[verifier::rlimit(50)]
pub(crate) proof fn lemma_save_parses(d: SaveData)
    requires
        save_loadable(d),
    ensures
        parse_save(save_bytes(d)) == Ok::<(SaveView, Seq<u8>), SaveError>((d@, Seq::<u8>::empty())),
{
    reveal(parse_save);
    let s = save_bytes(d);
    let sc = containers_bytes(d.containers);
    let sm = mobs_bytes(d.mobs@) + sc;
    let se = edits_bytes(d.edits) + sm;
    let si = inventory_bytes(d.inventory@.selected, d.inventory@.slots) + se;
    let sp = player_bytes(d.player) + si;
    let s2 = le32(d.seed) + sp;
    let s1 = le32(VERSION) + s2;
    let m = magic_bytes();
    let v = le32(VERSION);
    let sd = le32(d.seed);
    let p = player_bytes(d.player);
    let i = inventory_bytes(d.inventory@.selected, d.inventory@.slots);
    let e = edits_bytes(d.edits);
    let mo = mobs_bytes(d.mobs@);
    lemma_concat_associative(m + v + sd + p + i + e, mo, sc);
    lemma_concat_associative(m + v + sd + p + i, e, sm);
    lemma_concat_associative(m + v + sd + p, i, se);
    lemma_concat_associative(m + v + sd, p, si);
    lemma_concat_associative(m + v, sd, sp);
    lemma_concat_associative(m, v, s2);
    assert(s == magic_bytes() + s1);
    assert(s.take(4) =~= magic_bytes());
    assert(s.skip(4) =~= s1);
    lemma_reads_u32(VERSION, s2);
    lemma_reads_u32(d.seed, sp);
    lemma_reads_player(d.player, si);
    d.inventory.lemma_slot_count();
    lemma_reads_inventory(d.inventory@.selected, d.inventory@.slots, se);
    lemma_reads_edits(d.edits, sm);
    lemma_reads_live(d);
}

/// A save loads back as exactly what was saved: the seed, the player, the
/// inventory and its selection, every chunk edit and carve mask, every mob
/// and every container, for every save whose contents the loader accepts
/// (known items in possible counts, finite numbers, living mobs within
/// their kind's health, containers within the slot and field limits).
pub proof fn lemma_save_round_trip(d: SaveData)
    requires
        save_loadable(d),
    ensures
        load_spec(save_bytes(d)) == Ok::<SaveView, SaveError>(d@),
{
    lemma_save_parses(d);
}


/// The bytes of a version 1 file: the current layout up to the chunk edits,
/// with no mob or container section.
pub open spec fn save_bytes_v1(d: SaveData) -> Seq<u8> {
    magic_bytes() + le32(1) + le32(d.seed) + player_bytes(d.player) + inventory_bytes(
        d.inventory@.selected,
        d.inventory@.slots,
    ) + edits_bytes(d.edits)
}

/// What a version 1 file holds: its seed, player, inventory and edits, with
/// no mobs and no containers.
pub open spec fn v1_view(d: SaveData) -> SaveView {
    SaveView {
        seed: d.seed,
        player: d.player,
        selected: d.inventory@.selected,
        slots: d.inventory@.slots,
        edits: d.edits@,
        mobs: Seq::empty(),
        containers: Map::empty(),
    }
}

/// Every byte of a version 1 file is read.
#[verifier::rlimit(50)]
pub(crate) proof fn lemma_version_1_parses(d: SaveData)
    requires
        save_loadable(d),
    ensures
        parse_save(save_bytes_v1(d)) == Ok::<(SaveView, Seq<u8>), SaveError>((v1_view(d), Seq::<u8>::empty())),
{
    reveal(parse_save);
    let s = save_bytes_v1(d);
    let e = edits_bytes(d.edits);
    let se = e + Seq::<u8>::empty();
    let i = inventory_bytes(d.inventory@.selected, d.inventory@.slots);
    let si = i + se;
    let p = player_bytes(d.player);
    let sp = p + si;
    let sd = le32(d.seed);
    let s2 = sd + sp;
    let v = le32(1);
    let s1 = v + s2;
    let m = magic_bytes();
    assert(se =~= e);
    lemma_concat_associative(m + v + sd + p, i, se);
    lemma_concat_associative(m + v + sd, p, si);
    lemma_concat_associative(m + v, sd, sp);
    lemma_concat_associative(m, v, s2);
    assert(s == m + s1);
    assert(s.take(4) =~= magic_bytes());
    assert(s.skip(4) =~= s1);
    lemma_reads_u32(1, s2);
    lemma_reads_u32(d.seed, sp);
    lemma_reads_player(d.player, si);
    d.inventory.lemma_slot_count();
    lemma_reads_inventory(d.inventory@.selected, d.inventory@.slots, se);
    lemma_reads_edits(d.edits, Seq::<u8>::empty());
}

/// A version 1 file still loads: as its seed, player, inventory and edits,
/// with no mobs and no containers.
pub proof fn lemma_version_1_loads(d: SaveData)
    requires
        save_loadable(d),
    ensures
        load_spec(save_bytes_v1(d)) == Ok::<SaveView, SaveError>(v1_view(d)),
{
    lemma_version_1_parses(d);
}

proof fn lemma_delta_record_determined(e1: (ChunkKey, ChunkDelta), e2: (ChunkKey, ChunkDelta))
    requires
        delta_wf(e1.1),
        delta_wf(e2.1),
        e1.0 == e2.0,
        e1.1@ == e2.1@,
    ensures
        delta_record(e1) == delta_record(e2),
{
    let f = |m: [u8; MASK_BYTES]| m@;
    let (d1, d2) = (e1.1, e2.1);
    crate::ordered_map::lemma_sorted_canonical(d1.blocks.entries(), d2.blocks.entries());
    let v1 = map_entry_values(d1.masks.entries(), f);
    let v2 = map_entry_values(d2.masks.entries(), f);
    lemma_map_entry_values(d1.masks.entries(), f);
    lemma_map_entry_values(d2.masks.entries(), f);
    assert(seq_map(d1.masks.entries()).map_values(f) =~= d1@.masks);
    assert(seq_map(d2.masks.entries()).map_values(f) =~= d2@.masks);
    crate::ordered_map::lemma_sorted_canonical(v1, v2);
    assert(d1.masks.entries().len() == v1.len());
    assert(mask_records(d1.masks.entries()) =~= mask_records(d2.masks.entries())) by {
        assert forall|k: int| 0 <= k < v1.len() implies mask_records(d1.masks.entries())[k]
            == mask_records(d2.masks.entries())[k] by {
            assert(v1[k] == v2[k]);
        }
    }
}

proof fn lemma_edits_bytes_determined(t1: ChangeTracker, t2: ChangeTracker)
    requires
        t1.wf(),
        t2.wf(),
        t1@ == t2@,
    ensures
        edits_bytes(t1) == edits_bytes(t2),
{
    let f = |d: ChunkDelta| d@;
    let es1 = t1.chunk_entries();
    let es2 = t2.chunk_entries();
    t1.lemma_chunk_map();
    t2.lemma_chunk_map();
    lemma_map_entry_values(es1, f);
    lemma_map_entry_values(es2, f);
    assert(seq_map(es1).map_values(f) =~= t1@);
    assert(seq_map(es2).map_values(f) =~= t2@);
    let v1 = map_entry_values(es1, f);
    let v2 = map_entry_values(es2, f);
    crate::ordered_map::lemma_sorted_canonical(v1, v2);
    assert(delta_records(es1) =~= delta_records(es2)) by {
        assert forall|j: int| 0 <= j < es1.len() implies delta_records(es1)[j] == delta_records(
            es2,
        )[j] by {
            assert(v1[j] == v2[j]);
            lemma_seq_map_at(es1, j);
            lemma_seq_map_at(es2, j);
            assert(t1.chunk_map().contains_key(es1[j].0));
            assert(t2.chunk_map().contains_key(es2[j].0));
            lemma_delta_record_determined(es1[j], es2[j]);
        }
    }
}

proof fn lemma_containers_bytes_determined(
    c1: crate::ordered_map::OrderedMap<BlockPos, ContainerSave>,
    c2: crate::ordered_map::OrderedMap<BlockPos, ContainerSave>,
)
    requires
        c1.wf(),
        c2.wf(),
        container_views(c1@) == container_views(c2@),
    ensures
        containers_bytes(c1) == containers_bytes(c2),
{
    let f = |c: ContainerSave| c@;
    let es1 = c1.entries();
    let es2 = c2.entries();
    lemma_map_entry_values(es1, f);
    lemma_map_entry_values(es2, f);
    assert(seq_map(es1).map_values(f) =~= container_views(c1@));
    assert(seq_map(es2).map_values(f) =~= container_views(c2@));
    let v1 = map_entry_values(es1, f);
    let v2 = map_entry_values(es2, f);
    crate::ordered_map::lemma_sorted_canonical(v1, v2);
    assert(container_records(es1) =~= container_records(es2)) by {
        assert forall|j: int| 0 <= j < es1.len() implies container_records(es1)[j]
            == container_records(es2)[j] by {
            assert(v1[j] == v2[j]);
        }
    }
}

/// A save's bytes are a function of what it holds: two saves with the same
/// contents are written byte for byte alike. With the round trip this makes
/// a save byte-stable: loading a save and writing it again gives the same
/// bytes.
pub proof fn lemma_save_bytes_determined(d1: SaveData, d2: SaveData)
    requires
        d1.edits.wf(),
        d1.containers.wf(),
        d2.edits.wf(),
        d2.containers.wf(),
        d1@ == d2@,
    ensures
        save_bytes(d1) == save_bytes(d2),
{
    lemma_edits_bytes_determined(d1.edits, d2.edits);
    lemma_containers_bytes_determined(d1.containers, d2.containers);
}
/// A mob record opens with its kind's fixed number (zombie 0, skeleton 1,
/// creeper 2, pig 3) and is 34 bytes long, whatever the mob.
pub proof fn lemma_mob_record_kind_byte(m: MobSave)
    ensures
        mob_record(m).len() == 34,
        mob_record(m)[0] == (match m.kind {
            crate::mob::MobKind::Zombie => 0u8,
            crate::mob::MobKind::Skeleton => 1u8,
            crate::mob::MobKind::Creeper => 2u8,
            crate::mob::MobKind::Pig => 3u8,
        }),
{
    lemma_auto_spec_u32_to_from_le_bytes();
}

} // verus!
