//! A truncated save is refused.
//!
//! Every reader of the format decides from the bytes it consumes alone: the
//! same bytes followed by anything else read as the same value. So if a
//! strict prefix of a file loaded, the whole file would load having read no
//! further than that prefix; a written save, though, is read to its last
//! byte.
use vstd::prelude::*;
use crate::save::{SaveData, SaveError};
use crate::save_laws::{lemma_save_parses, lemma_version_1_parses, save_bytes_v1, save_loadable};
use crate::save_read::{
    load_spec, parse_blocks, parse_chunk, parse_chunks, parse_container, parse_container_list,
    parse_container_slots, parse_containers, parse_edits, parse_f32, parse_fields, parse_i32,
    parse_inventory, parse_inventory_slots, parse_live, parse_mask, parse_masks, parse_mob,
    parse_mob_list, parse_mobs, parse_player, parse_save, parse_slot, parse_u16, parse_u32,
    parse_u8, Parsed,
};
use crate::save_write::save_bytes;

verus! {

/// The bytes a successful parse of `t` consumed.
pub open spec fn consumed<T>(p: Parsed<T>, t: Seq<u8>) -> Seq<u8> {
    match p {
        Ok((_, r)) => t.take(t.len() - r.len()),
        Err(_) => Seq::empty(),
    }
}

/// A successful parse `p` of `t` left a suffix of `t`, and `q`, the same
/// parse of the consumed bytes followed by `w`, gives the same value and
/// leaves exactly `w`.
pub open spec fn replays<T>(p: Parsed<T>, t: Seq<u8>, q: Parsed<T>, w: Seq<u8>) -> bool {
    match p {
        Err(_) => true,
        Ok((v, r)) => {
            &&& r.len() <= t.len()
            &&& t == consumed(p, t) + r
            &&& q == Ok::<(T, Seq<u8>), SaveError>((v, w))
        },
    }
}

/// Two consumed pieces in a row make one.
proof fn lemma_join(t: Seq<u8>, a: Seq<u8>, t1: Seq<u8>, b: Seq<u8>, r: Seq<u8>)
    requires
        t == a + t1,
        t1 == b + r,
    ensures
        t == (a + b) + r,
        t.take(t.len() - r.len()) == a + b,
{
    assert(t =~= (a + b) + r);
    assert(t.take(t.len() - r.len()) =~= a + b);
}

proof fn lemma_u8_replays(t: Seq<u8>, w: Seq<u8>)
    ensures
        replays(parse_u8(t), t, parse_u8(consumed(parse_u8(t), t) + w), w),
{
    if t.len() >= 1 {
        let a = t.take(1);
        assert(t =~= a + t.skip(1));
        assert((a + w).skip(1) =~= w);
    }
}

proof fn lemma_u16_replays(t: Seq<u8>, w: Seq<u8>)
    ensures
        replays(parse_u16(t), t, parse_u16(consumed(parse_u16(t), t) + w), w),
{
    if t.len() >= 2 {
        let a = t.take(2);
        assert(t =~= a + t.skip(2));
        assert((a + w).skip(2) =~= w);
        assert((a + w).take(2) =~= t.take(2));
    }
}

proof fn lemma_u32_replays(t: Seq<u8>, w: Seq<u8>)
    ensures
        replays(parse_u32(t), t, parse_u32(consumed(parse_u32(t), t) + w), w),
{
    if t.len() >= 4 {
        let a = t.take(4);
        assert(t =~= a + t.skip(4));
        assert((a + w).skip(4) =~= w);
        assert((a + w).take(4) =~= t.take(4));
    }
}

proof fn lemma_i32_replays(t: Seq<u8>, w: Seq<u8>)
    ensures
        replays(parse_i32(t), t, parse_i32(consumed(parse_i32(t), t) + w), w),
{
    lemma_u32_replays(t, w);
}

proof fn lemma_f32_replays(t: Seq<u8>, w: Seq<u8>)
    ensures
        replays(parse_f32(t), t, parse_f32(consumed(parse_f32(t), t) + w), w),
{
    lemma_u32_replays(t, w);
}

proof fn lemma_mask_replays(t: Seq<u8>, w: Seq<u8>)
    ensures
        replays(parse_mask(t), t, parse_mask(consumed(parse_mask(t), t) + w), w),
{
    if t.len() >= 64 {
        let a = t.take(64);
        assert(t =~= a + t.skip(64));
        assert((a + w).skip(64) =~= w);
        assert((a + w).take(64) =~= t.take(64));
    }
}

/// A parse that consumed nothing.
proof fn lemma_nothing_consumed(t: Seq<u8>, w: Seq<u8>)
    ensures
        t.take(t.len() - t.len()) == Seq::<u8>::empty(),
        t == Seq::<u8>::empty() + t,
        Seq::<u8>::empty() + w == w,
{
    assert(t.take(t.len() - t.len()) =~= Seq::<u8>::empty());
    assert(t =~= Seq::<u8>::empty() + t);
    assert(Seq::<u8>::empty() + w =~= w);
}

proof fn lemma_slot_replays(t: Seq<u8>, w: Seq<u8>)
    ensures
        replays(parse_slot(t), t, parse_slot(consumed(parse_slot(t), t) + w), w),
{
    if parse_slot(t) is Ok {
        let t1 = parse_u8(t)->Ok_0.1;
        let t2 = parse_u16(t1)->Ok_0.1;
        let t3 = parse_u8(t2)->Ok_0.1;
        let t4 = parse_u16(t3)->Ok_0.1;
        let a = consumed(parse_u8(t), t);
        let b = consumed(parse_u16(t1), t1);
        let c = consumed(parse_u8(t2), t2);
        let d = consumed(parse_u16(t3), t3);
        lemma_u16_replays(t3, w);
        lemma_u8_replays(t2, d + w);
        lemma_u16_replays(t1, c + (d + w));
        lemma_u8_replays(t, b + (c + (d + w)));
        lemma_join(t2, c, t3, d, t4);
        lemma_join(t1, b, t2, c + d, t4);
        lemma_join(t, a, t1, b + (c + d), t4);
        assert((a + (b + (c + d))) + w =~= a + (b + (c + (d + w))));
    }
}

proof fn lemma_inventory_slots_replays(
    t: Seq<u8>,
    n: nat,
    slots: Seq<Option<crate::inventory::ItemStack>>,
    w: Seq<u8>,
)
    ensures
        replays(
            parse_inventory_slots(t, n, slots),
            t,
            parse_inventory_slots(consumed(parse_inventory_slots(t, n, slots), t) + w, n, slots),
            w,
        ),
    decreases n,
{
    if n == 0 {
        lemma_nothing_consumed(t, w);
    } else if parse_inventory_slots(t, n, slots) is Ok {
        let (index, st) = parse_slot(t)->Ok_0.0;
        let r = parse_slot(t)->Ok_0.1;
        let next = slots.update(index as int, Some(st));
        let r2 = parse_inventory_slots(r, (n - 1) as nat, next)->Ok_0.1;
        let a = consumed(parse_slot(t), t);
        let b = consumed(parse_inventory_slots(r, (n - 1) as nat, next), r);
        lemma_inventory_slots_replays(r, (n - 1) as nat, next, w);
        lemma_slot_replays(t, b + w);
        lemma_join(t, a, r, b, r2);
        assert((a + b) + w =~= a + (b + w));
    }
}

proof fn lemma_inventory_replays(t: Seq<u8>, w: Seq<u8>)
    ensures
        replays(parse_inventory(t), t, parse_inventory(consumed(parse_inventory(t), t) + w), w),
{
    if parse_inventory(t) is Ok {
        let t1 = parse_u8(t)->Ok_0.1;
        let (n, t2) = parse_u32(t1)->Ok_0;
        let t3 = parse_inventory_slots(t2, n as nat, crate::save_read::empty_slots(36))->Ok_0.1;
        let a = consumed(parse_u8(t), t);
        let b = consumed(parse_u32(t1), t1);
        let c = consumed(parse_inventory_slots(t2, n as nat, crate::save_read::empty_slots(36)), t2);
        lemma_inventory_slots_replays(t2, n as nat, crate::save_read::empty_slots(36), w);
        lemma_u32_replays(t1, c + w);
        lemma_u8_replays(t, b + (c + w));
        lemma_join(t1, b, t2, c, t3);
        lemma_join(t, a, t1, b + c, t3);
        assert((a + (b + c)) + w =~= a + (b + (c + w)));
    }
}

proof fn lemma_blocks_replays(t: Seq<u8>, n: nat, acc: Map<u16, crate::block::BlockId>, w: Seq<u8>)
    ensures
        replays(
            parse_blocks(t, n, acc),
            t,
            parse_blocks(consumed(parse_blocks(t, n, acc), t) + w, n, acc),
            w,
        ),
    decreases n,
{
    if n == 0 {
        lemma_nothing_consumed(t, w);
    } else if parse_blocks(t, n, acc) is Ok {
        let (index, t1) = parse_u16(t)->Ok_0;
        let (id, t2) = parse_u8(t1)->Ok_0;
        let next = acc.insert(index, crate::block::BlockId(id));
        let t3 = parse_blocks(t2, (n - 1) as nat, next)->Ok_0.1;
        let a = consumed(parse_u16(t), t);
        let b = consumed(parse_u8(t1), t1);
        let c = consumed(parse_blocks(t2, (n - 1) as nat, next), t2);
        lemma_blocks_replays(t2, (n - 1) as nat, next, w);
        lemma_u8_replays(t1, c + w);
        lemma_u16_replays(t, b + (c + w));
        lemma_join(t1, b, t2, c, t3);
        lemma_join(t, a, t1, b + c, t3);
        assert((a + (b + c)) + w =~= a + (b + (c + w)));
    }
}

proof fn lemma_masks_replays(t: Seq<u8>, n: nat, acc: Map<u16, Seq<u8>>, w: Seq<u8>)
    ensures
        replays(
            parse_masks(t, n, acc),
            t,
            parse_masks(consumed(parse_masks(t, n, acc), t) + w, n, acc),
            w,
        ),
    decreases n,
{
    if n == 0 {
        lemma_nothing_consumed(t, w);
    } else if parse_masks(t, n, acc) is Ok {
        let (index, t1) = parse_u16(t)->Ok_0;
        let (mask, t2) = parse_mask(t1)->Ok_0;
        let next = acc.insert(index, mask);
        let t3 = parse_masks(t2, (n - 1) as nat, next)->Ok_0.1;
        let a = consumed(parse_u16(t), t);
        let b = consumed(parse_mask(t1), t1);
        let c = consumed(parse_masks(t2, (n - 1) as nat, next), t2);
        lemma_masks_replays(t2, (n - 1) as nat, next, w);
        lemma_mask_replays(t1, c + w);
        lemma_u16_replays(t, b + (c + w));
        lemma_join(t1, b, t2, c, t3);
        lemma_join(t, a, t1, b + c, t3);
        assert((a + (b + c)) + w =~= a + (b + (c + w)));
    }
}

#[verifier::rlimit(30)]
proof fn lemma_chunk_replays(t: Seq<u8>, w: Seq<u8>)
    ensures
        replays(parse_chunk(t), t, parse_chunk(consumed(parse_chunk(t), t) + w), w),
{
    if parse_chunk(t) is Ok {
        let t1 = parse_i32(t)->Ok_0.1;
        let t2 = parse_i32(t1)->Ok_0.1;
        let t3 = parse_i32(t2)->Ok_0.1;
        let (nb, t4) = parse_u32(t3)->Ok_0;
        let t5 = parse_blocks(t4, nb as nat, Map::empty())->Ok_0.1;
        let (nm, t6) = parse_u32(t5)->Ok_0;
        let t7 = parse_masks(t6, nm as nat, Map::empty())->Ok_0.1;
        let a = consumed(parse_i32(t), t);
        let b = consumed(parse_i32(t1), t1);
        let c = consumed(parse_i32(t2), t2);
        let d = consumed(parse_u32(t3), t3);
        let e = consumed(parse_blocks(t4, nb as nat, Map::empty()), t4);
        let f = consumed(parse_u32(t5), t5);
        let g = consumed(parse_masks(t6, nm as nat, Map::empty()), t6);
        let w6 = g + w;
        let w5 = f + w6;
        let w4 = e + w5;
        let w3 = d + w4;
        let w2 = c + w3;
        let w1 = b + w2;
        lemma_masks_replays(t6, nm as nat, Map::empty(), w);
        lemma_u32_replays(t5, w6);
        lemma_blocks_replays(t4, nb as nat, Map::empty(), w5);
        lemma_u32_replays(t3, w4);
        lemma_i32_replays(t2, w3);
        lemma_i32_replays(t1, w2);
        lemma_i32_replays(t, w1);
        lemma_join(t5, f, t6, g, t7);
        lemma_join(t4, e, t5, f + g, t7);
        lemma_join(t3, d, t4, e + (f + g), t7);
        lemma_join(t2, c, t3, d + (e + (f + g)), t7);
        lemma_join(t1, b, t2, c + (d + (e + (f + g))), t7);
        lemma_join(t, a, t1, b + (c + (d + (e + (f + g)))), t7);
        assert((a + (b + (c + (d + (e + (f + g)))))) + w =~= a + w1);
    }
}

proof fn lemma_chunks_replays(t: Seq<u8>, n: nat, acc: crate::save::TrackerView, w: Seq<u8>)
    ensures
        replays(
            parse_chunks(t, n, acc),
            t,
            parse_chunks(consumed(parse_chunks(t, n, acc), t) + w, n, acc),
            w,
        ),
    decreases n,
{
    if n == 0 {
        lemma_nothing_consumed(t, w);
    } else if parse_chunks(t, n, acc) is Ok {
        let ((key, d), r) = parse_chunk(t)->Ok_0;
        let next = if d == crate::save::empty_delta() {
            acc
        } else {
            acc.insert(key, d)
        };
        let r2 = parse_chunks(r, (n - 1) as nat, next)->Ok_0.1;
        let a = consumed(parse_chunk(t), t);
        let b = consumed(parse_chunks(r, (n - 1) as nat, next), r);
        lemma_chunks_replays(r, (n - 1) as nat, next, w);
        lemma_chunk_replays(t, b + w);
        lemma_join(t, a, r, b, r2);
        assert((a + b) + w =~= a + (b + w));
    }
}

proof fn lemma_edits_replays(t: Seq<u8>, w: Seq<u8>)
    ensures
        replays(parse_edits(t), t, parse_edits(consumed(parse_edits(t), t) + w), w),
{
    if parse_edits(t) is Ok {
        let (n, t1) = parse_u32(t)->Ok_0;
        let t2 = parse_chunks(t1, n as nat, crate::save::TrackerView::empty())->Ok_0.1;
        let a = consumed(parse_u32(t), t);
        let b = consumed(parse_chunks(t1, n as nat, crate::save::TrackerView::empty()), t1);
        lemma_chunks_replays(t1, n as nat, crate::save::TrackerView::empty(), w);
        lemma_u32_replays(t, b + w);
        lemma_join(t, a, t1, b, t2);
        assert((a + b) + w =~= a + (b + w));
    }
}

#[verifier::rlimit(30)]
proof fn lemma_player_replays(t: Seq<u8>, w: Seq<u8>)
    ensures
        replays(parse_player(t), t, parse_player(consumed(parse_player(t), t) + w), w),
{
    if parse_player(t) is Ok {
        let t1 = parse_f32(t)->Ok_0.1;
        let t2 = parse_f32(t1)->Ok_0.1;
        let t3 = parse_f32(t2)->Ok_0.1;
        let t4 = parse_f32(t3)->Ok_0.1;
        let t5 = parse_f32(t4)->Ok_0.1;
        let t6 = parse_f32(t5)->Ok_0.1;
        let a = consumed(parse_f32(t), t);
        let b = consumed(parse_f32(t1), t1);
        let c = consumed(parse_f32(t2), t2);
        let d = consumed(parse_f32(t3), t3);
        let e = consumed(parse_f32(t4), t4);
        let f = consumed(parse_f32(t5), t5);
        let w5 = f + w;
        let w4 = e + w5;
        let w3 = d + w4;
        let w2 = c + w3;
        let w1 = b + w2;
        lemma_f32_replays(t5, w);
        lemma_f32_replays(t4, w5);
        lemma_f32_replays(t3, w4);
        lemma_f32_replays(t2, w3);
        lemma_f32_replays(t1, w2);
        lemma_f32_replays(t, w1);
        lemma_join(t4, e, t5, f, t6);
        lemma_join(t3, d, t4, e + f, t6);
        lemma_join(t2, c, t3, d + (e + f), t6);
        lemma_join(t1, b, t2, c + (d + (e + f)), t6);
        lemma_join(t, a, t1, b + (c + (d + (e + f))), t6);
        assert((a + (b + (c + (d + (e + f))))) + w =~= a + w1);
    }
}

#[verifier::rlimit(60)]
proof fn lemma_mob_replays(t: Seq<u8>, w: Seq<u8>)
    ensures
        replays(parse_mob(t), t, parse_mob(consumed(parse_mob(t), t) + w), w),
{
    if parse_mob(t) is Ok {
        let t0 = t;
        let t1 = parse_u8(t0)->Ok_0.1;
        let t2 = parse_f32(t1)->Ok_0.1;
        let t3 = parse_f32(t2)->Ok_0.1;
        let t4 = parse_f32(t3)->Ok_0.1;
        let t5 = parse_f32(t4)->Ok_0.1;
        let t6 = parse_f32(t5)->Ok_0.1;
        let t7 = parse_f32(t6)->Ok_0.1;
        let t8 = parse_f32(t7)->Ok_0.1;
        let t9 = parse_f32(t8)->Ok_0.1;
        let t10 = parse_u8(t9)->Ok_0.1;
        let c0 = consumed(parse_u8(t0), t0);
        let c1 = consumed(parse_f32(t1), t1);
        let c2 = consumed(parse_f32(t2), t2);
        let c3 = consumed(parse_f32(t3), t3);
        let c4 = consumed(parse_f32(t4), t4);
        let c5 = consumed(parse_f32(t5), t5);
        let c6 = consumed(parse_f32(t6), t6);
        let c7 = consumed(parse_f32(t7), t7);
        let c8 = consumed(parse_f32(t8), t8);
        let c9 = consumed(parse_u8(t9), t9);
        let w10 = w;
        let w9 = c9 + w10;
        let w8 = c8 + w9;
        let w7 = c7 + w8;
        let w6 = c6 + w7;
        let w5 = c5 + w6;
        let w4 = c4 + w5;
        let w3 = c3 + w4;
        let w2 = c2 + w3;
        let w1 = c1 + w2;
        lemma_u8_replays(t9, w10);
        lemma_f32_replays(t8, w9);
        lemma_f32_replays(t7, w8);
        lemma_f32_replays(t6, w7);
        lemma_f32_replays(t5, w6);
        lemma_f32_replays(t4, w5);
        lemma_f32_replays(t3, w4);
        lemma_f32_replays(t2, w3);
        lemma_f32_replays(t1, w2);
        lemma_u8_replays(t0, w1);
        lemma_join(t8, c8, t9, c9, t10);
        lemma_join(t7, c7, t8, c8 + c9, t10);
        lemma_join(t6, c6, t7, c7 + (c8 + c9), t10);
        lemma_join(t5, c5, t6, c6 + (c7 + (c8 + c9)), t10);
        lemma_join(t4, c4, t5, c5 + (c6 + (c7 + (c8 + c9))), t10);
        lemma_join(t3, c3, t4, c4 + (c5 + (c6 + (c7 + (c8 + c9)))), t10);
        lemma_join(t2, c2, t3, c3 + (c4 + (c5 + (c6 + (c7 + (c8 + c9))))), t10);
        lemma_join(t1, c1, t2, c2 + (c3 + (c4 + (c5 + (c6 + (c7 + (c8 + c9)))))), t10);
        lemma_join(t0, c0, t1, c1 + (c2 + (c3 + (c4 + (c5 + (c6 + (c7 + (c8 + c9))))))), t10);
        assert((c0 + (c1 + (c2 + (c3 + (c4 + (c5 + (c6 + (c7 + (c8 + c9))))))))) + w =~= c0 + w1);
    }
}

proof fn lemma_mob_list_replays(t: Seq<u8>, n: nat, acc: Seq<crate::save::MobSave>, w: Seq<u8>)
    ensures
        replays(
            parse_mob_list(t, n, acc),
            t,
            parse_mob_list(consumed(parse_mob_list(t, n, acc), t) + w, n, acc),
            w,
        ),
    decreases n,
{
    if n == 0 {
        lemma_nothing_consumed(t, w);
    } else if parse_mob_list(t, n, acc) is Ok {
        let (m, r) = parse_mob(t)->Ok_0;
        let next = acc.push(m);
        let r2 = parse_mob_list(r, (n - 1) as nat, next)->Ok_0.1;
        let a = consumed(parse_mob(t), t);
        let b = consumed(parse_mob_list(r, (n - 1) as nat, next), r);
        lemma_mob_list_replays(r, (n - 1) as nat, next, w);
        lemma_mob_replays(t, b + w);
        lemma_join(t, a, r, b, r2);
        assert((a + b) + w =~= a + (b + w));
    }
}

proof fn lemma_mobs_replays(t: Seq<u8>, w: Seq<u8>)
    ensures
        replays(parse_mobs(t), t, parse_mobs(consumed(parse_mobs(t), t) + w), w),
{
    if parse_mobs(t) is Ok {
        let (n, t1) = parse_u32(t)->Ok_0;
        let t2 = parse_mob_list(t1, n as nat, Seq::empty())->Ok_0.1;
        let a = consumed(parse_u32(t), t);
        let b = consumed(parse_mob_list(t1, n as nat, Seq::empty()), t1);
        lemma_mob_list_replays(t1, n as nat, Seq::empty(), w);
        lemma_u32_replays(t, b + w);
        lemma_join(t, a, t1, b, t2);
        assert((a + b) + w =~= a + (b + w));
    }
}

proof fn lemma_container_slots_replays(
    t: Seq<u8>,
    n: nat,
    slots: Seq<Option<crate::inventory::ItemStack>>,
    w: Seq<u8>,
)
    ensures
        replays(
            parse_container_slots(t, n, slots),
            t,
            parse_container_slots(consumed(parse_container_slots(t, n, slots), t) + w, n, slots),
            w,
        ),
    decreases n,
{
    if n == 0 {
        lemma_nothing_consumed(t, w);
    } else if parse_container_slots(t, n, slots) is Ok {
        let (index, st) = parse_slot(t)->Ok_0.0;
        let r = parse_slot(t)->Ok_0.1;
        let next = slots.update(index as int, Some(st));
        let r2 = parse_container_slots(r, (n - 1) as nat, next)->Ok_0.1;
        let a = consumed(parse_slot(t), t);
        let b = consumed(parse_container_slots(r, (n - 1) as nat, next), r);
        lemma_container_slots_replays(r, (n - 1) as nat, next, w);
        lemma_slot_replays(t, b + w);
        lemma_join(t, a, r, b, r2);
        assert((a + b) + w =~= a + (b + w));
    }
}

proof fn lemma_fields_replays(t: Seq<u8>, n: nat, acc: Seq<u32>, w: Seq<u8>)
    ensures
        replays(
            parse_fields(t, n, acc),
            t,
            parse_fields(consumed(parse_fields(t, n, acc), t) + w, n, acc),
            w,
        ),
    decreases n,
{
    if n == 0 {
        lemma_nothing_consumed(t, w);
    } else if parse_fields(t, n, acc) is Ok {
        let (f, r) = parse_f32(t)->Ok_0;
        let next = acc.push(f);
        let r2 = parse_fields(r, (n - 1) as nat, next)->Ok_0.1;
        let a = consumed(parse_f32(t), t);
        let b = consumed(parse_fields(r, (n - 1) as nat, next), r);
        lemma_fields_replays(r, (n - 1) as nat, next, w);
        lemma_f32_replays(t, b + w);
        lemma_join(t, a, r, b, r2);
        assert((a + b) + w =~= a + (b + w));
    }
}

#[verifier::rlimit(60)]
proof fn lemma_container_replays(t: Seq<u8>, w: Seq<u8>)
    ensures
        replays(parse_container(t), t, parse_container(consumed(parse_container(t), t) + w), w),
{
    if parse_container(t) is Ok {
        let t0 = t;
        let t1 = parse_i32(t0)->Ok_0.1;
        let t2 = parse_i32(t1)->Ok_0.1;
        let t3 = parse_i32(t2)->Ok_0.1;
        let t4 = parse_u16(t3)->Ok_0.1;
        let (ns, t5) = parse_u8(t4)->Ok_0;
        let (occ, t6) = parse_u8(t5)->Ok_0;
        let t7 = parse_container_slots(t6, occ as nat, crate::save_read::empty_slots(ns as nat))->Ok_0.1;
        let (nf, t8) = parse_u8(t7)->Ok_0;
        let t9 = parse_fields(t8, nf as nat, Seq::empty())->Ok_0.1;
        let c0 = consumed(parse_i32(t0), t0);
        let c1 = consumed(parse_i32(t1), t1);
        let c2 = consumed(parse_i32(t2), t2);
        let c3 = consumed(parse_u16(t3), t3);
        let c4 = consumed(parse_u8(t4), t4);
        let c5 = consumed(parse_u8(t5), t5);
        let c6 = consumed(parse_container_slots(t6, occ as nat, crate::save_read::empty_slots(ns as nat)), t6);
        let c7 = consumed(parse_u8(t7), t7);
        let c8 = consumed(parse_fields(t8, nf as nat, Seq::empty()), t8);
        let w9 = w;
        let w8 = c8 + w9;
        let w7 = c7 + w8;
        let w6 = c6 + w7;
        let w5 = c5 + w6;
        let w4 = c4 + w5;
        let w3 = c3 + w4;
        let w2 = c2 + w3;
        let w1 = c1 + w2;
        lemma_fields_replays(t8, nf as nat, Seq::empty(), w9);
        lemma_u8_replays(t7, w8);
        lemma_container_slots_replays(t6, occ as nat, crate::save_read::empty_slots(ns as nat), w7);
        lemma_u8_replays(t5, w6);
        lemma_u8_replays(t4, w5);
        lemma_u16_replays(t3, w4);
        lemma_i32_replays(t2, w3);
        lemma_i32_replays(t1, w2);
        lemma_i32_replays(t0, w1);
        lemma_join(t7, c7, t8, c8, t9);
        lemma_join(t6, c6, t7, c7 + c8, t9);
        lemma_join(t5, c5, t6, c6 + (c7 + c8), t9);
        lemma_join(t4, c4, t5, c5 + (c6 + (c7 + c8)), t9);
        lemma_join(t3, c3, t4, c4 + (c5 + (c6 + (c7 + c8))), t9);
        lemma_join(t2, c2, t3, c3 + (c4 + (c5 + (c6 + (c7 + c8)))), t9);
        lemma_join(t1, c1, t2, c2 + (c3 + (c4 + (c5 + (c6 + (c7 + c8))))), t9);
        lemma_join(t0, c0, t1, c1 + (c2 + (c3 + (c4 + (c5 + (c6 + (c7 + c8)))))), t9);
        assert((c0 + (c1 + (c2 + (c3 + (c4 + (c5 + (c6 + (c7 + c8)))))))) + w =~= c0 + w1);
    }
}

#[verifier::spinoff_prover]
#[verifier::rlimit(60)]
proof fn lemma_container_list_replays(
    t: Seq<u8>,
    n: nat,
    acc: Map<crate::save::BlockPos, crate::save::ContainerView>,
    w: Seq<u8>,
)
    ensures
        replays(
            parse_container_list(t, n, acc),
            t,
            parse_container_list(consumed(parse_container_list(t, n, acc), t) + w, n, acc),
            w,
        ),
    decreases n,
{
    if n == 0 {
        lemma_nothing_consumed(t, w);
    } else if parse_container_list(t, n, acc) is Ok {
        let ((pos, c), r) = parse_container(t)->Ok_0;
        let next = acc.insert(pos, c);
        let r2 = parse_container_list(r, (n - 1) as nat, next)->Ok_0.1;
        let a = consumed(parse_container(t), t);
        let b = consumed(parse_container_list(r, (n - 1) as nat, next), r);
        lemma_container_list_replays(r, (n - 1) as nat, next, w);
        lemma_container_replays(t, b + w);
        lemma_join(t, a, r, b, r2);
        assert((a + b) + w =~= a + (b + w));
    }
}

proof fn lemma_containers_replays(t: Seq<u8>, w: Seq<u8>)
    ensures
        replays(parse_containers(t), t, parse_containers(consumed(parse_containers(t), t) + w), w),
{
    if parse_containers(t) is Ok {
        let (n, t1) = parse_u32(t)->Ok_0;
        let t2 = parse_container_list(t1, n as nat, Map::empty())->Ok_0.1;
        let a = consumed(parse_u32(t), t);
        let b = consumed(parse_container_list(t1, n as nat, Map::empty()), t1);
        lemma_container_list_replays(t1, n as nat, Map::empty(), w);
        lemma_u32_replays(t, b + w);
        lemma_join(t, a, t1, b, t2);
        assert((a + b) + w =~= a + (b + w));
    }
}

#[verifier::spinoff_prover]
#[verifier::rlimit(60)]
proof fn lemma_live_replays(t: Seq<u8>, version: u32, w: Seq<u8>)
    ensures
        replays(
            parse_live(t, version),
            t,
            parse_live(consumed(parse_live(t, version), t) + w, version),
            w,
        ),
{
    if version < 2 {
        lemma_nothing_consumed(t, w);
    } else if parse_live(t, version) is Ok {
        let t1 = parse_mobs(t)->Ok_0.1;
        let t2 = parse_containers(t1)->Ok_0.1;
        let a = consumed(parse_mobs(t), t);
        let b = consumed(parse_containers(t1), t1);
        lemma_containers_replays(t1, w);
        lemma_mobs_replays(t, b + w);
        lemma_join(t, a, t1, b, t2);
        assert((a + b) + w =~= a + (b + w));
    }
}

#[verifier::spinoff_prover]
#[verifier::rlimit(100)]
proof fn lemma_save_replays(t: Seq<u8>, w: Seq<u8>)
    ensures
        replays(parse_save(t), t, parse_save(consumed(parse_save(t), t) + w), w),
{
    reveal(parse_save);
    if parse_save(t) is Ok {
        let m = t.take(4);
        let t0 = t.skip(4);
        let (version, t1) = parse_u32(t0)->Ok_0;
        let t2 = parse_u32(t1)->Ok_0.1;
        let t3 = parse_player(t2)->Ok_0.1;
        let t4 = parse_inventory(t3)->Ok_0.1;
        let t5 = parse_edits(t4)->Ok_0.1;
        let t6 = parse_live(t5, version)->Ok_0.1;
        let c0 = consumed(parse_u32(t0), t0);
        let c1 = consumed(parse_u32(t1), t1);
        let c2 = consumed(parse_player(t2), t2);
        let c3 = consumed(parse_inventory(t3), t3);
        let c4 = consumed(parse_edits(t4), t4);
        let c5 = consumed(parse_live(t5, version), t5);
        let w6 = w;
        let w5 = c5 + w6;
        let w4 = c4 + w5;
        let w3 = c3 + w4;
        let w2 = c2 + w3;
        let w1 = c1 + w2;
        let w0 = c0 + w1;
        lemma_live_replays(t5, version, w6);
        lemma_edits_replays(t4, w5);
        lemma_inventory_replays(t3, w4);
        lemma_player_replays(t2, w3);
        lemma_u32_replays(t1, w2);
        lemma_u32_replays(t0, w1);
        lemma_join(t4, c4, t5, c5, t6);
        lemma_join(t3, c3, t4, c4 + c5, t6);
        lemma_join(t2, c2, t3, c3 + (c4 + c5), t6);
        lemma_join(t1, c1, t2, c2 + (c3 + (c4 + c5)), t6);
        lemma_join(t0, c0, t1, c1 + (c2 + (c3 + (c4 + c5))), t6);
        assert(t =~= m + t0);
        lemma_join(t, m, t0, c0 + (c1 + (c2 + (c3 + (c4 + c5)))), t6);
        let x = (m + (c0 + (c1 + (c2 + (c3 + (c4 + c5)))))) + w;
        assert(x =~= m + w0);
        assert(x.take(4) =~= m);
        assert(x.skip(4) =~= w0);
    }
}

/// If a byte string loads and is read to its end, none of its strict
/// prefixes loads.
proof fn lemma_short_prefix_refused(s: Seq<u8>, k: int)
    requires
        parse_save(s) is Ok,
        parse_save(s)->Ok_0.1 == Seq::<u8>::empty(),
        0 <= k < s.len(),
    ensures
        load_spec(s.take(k)) is Err,
{
    let t = s.take(k);
    if parse_save(t) is Ok {
        let a = consumed(parse_save(t), t);
        let rest = s.skip(a.len() as int);
        lemma_save_replays(t, rest);
        assert(a =~= s.take(a.len() as int));
        assert(a + rest =~= s);
        assert(rest.len() > 0);
    }
}

/// A written save cut short anywhere is refused: every strict prefix of its
/// bytes fails to load.
pub proof fn lemma_truncated_save_refused(d: SaveData, k: int)
    requires
        save_loadable(d),
        0 <= k < save_bytes(d).len(),
    ensures
        load_spec(save_bytes(d).take(k)) is Err,
{
    lemma_save_parses(d);
    lemma_short_prefix_refused(save_bytes(d), k);
}

/// A version 1 file cut short anywhere is refused as well.
pub proof fn lemma_truncated_version_1_refused(d: SaveData, k: int)
    requires
        save_loadable(d),
        0 <= k < save_bytes_v1(d).len(),
    ensures
        load_spec(save_bytes_v1(d).take(k)) is Err,
{
    lemma_version_1_parses(d);
    lemma_short_prefix_refused(save_bytes_v1(d), k);
}

} // verus!
