//! Reading a save: the parser, stated once as a specification over the
//! remaining bytes and carried out by [`load_from_bytes`].
//!
//! Every reader refuses what it cannot use: a wrong magic, a version outside
//! [`MIN_VERSION`]`..=`[`VERSION`], bytes that end inside a record, and values
//! that cannot occur. It never panics on malformed input. A version 1 file has
//! no mob or container sections and loads with both empty.
use vstd::prelude::*;
use vstd::bytes::{spec_u16_from_le_bytes, spec_u32_from_le_bytes, u16_from_le_bytes, u32_from_le_bytes};
use vstd::slice::slice_subrange;
use crate::block::BlockId;
use crate::chunk::{all_bytes, MASK_BYTES};
use crate::inventory::{Inventory, ItemStack};
use crate::item::{item_known, max_durability_of, max_stack_of, ItemId};
use crate::mob::max_health_bits_of;
use crate::ordered_map::OrderedMap;
use crate::save::{
    empty_delta, finite_bits, is_finite_bits, magic_bytes, mob_kind_from_code, mob_kind_of_code,
    positive_bits, BlockPos, ChangeTracker, ChunkDelta, ChunkKey, ContainerKind, ContainerSave,
    ContainerView, DeltaView, MobSave, container_views, PlayerSave, SaveData, SaveError, SaveView, TrackerView,
    MAGIC, MAX_CONTAINER_FIELDS, MAX_CONTAINER_SLOTS, MIN_VERSION, VERSION,
};

verus! {

/// A parsed value and the bytes after it, or why parsing stopped.
pub type Parsed<T> = Result<(T, Seq<u8>), SaveError>;

/// The error for a record that needs `n` bytes where only `s` remains.
pub open spec fn truncated(n: nat, s: Seq<u8>) -> SaveError {
    SaveError::Truncated { needed: n as usize, available: s.len() as usize }
}

// --- primitive readers -----------------------------------------------------------

pub open spec fn parse_u8(s: Seq<u8>) -> Parsed<u8> {
    if s.len() < 1 {
        Err(truncated(1, s))
    } else {
        Ok((s[0], s.skip(1)))
    }
}

pub open spec fn parse_u16(s: Seq<u8>) -> Parsed<u16> {
    if s.len() < 2 {
        Err(truncated(2, s))
    } else {
        Ok((spec_u16_from_le_bytes(s.take(2)), s.skip(2)))
    }
}

pub open spec fn parse_u32(s: Seq<u8>) -> Parsed<u32> {
    if s.len() < 4 {
        Err(truncated(4, s))
    } else {
        Ok((spec_u32_from_le_bytes(s.take(4)), s.skip(4)))
    }
}

pub open spec fn parse_i32(s: Seq<u8>) -> Parsed<i32> {
    match parse_u32(s) {
        Err(e) => Err(e),
        Ok((v, r)) => Ok((v as i32, r)),
    }
}

/// An `f32` bit pattern, refused unless it is a finite number.
pub open spec fn parse_f32(s: Seq<u8>) -> Parsed<u32> {
    match parse_u32(s) {
        Err(e) => Err(e),
        Ok((v, r)) => if finite_bits(v) {
            Ok((v, r))
        } else {
            Err(SaveError::Corrupt("non-finite float"))
        },
    }
}

pub open spec fn parse_mask(s: Seq<u8>) -> Parsed<Seq<u8>> {
    if s.len() < 64 {
        Err(truncated(64, s))
    } else {
        Ok((s.take(64), s.skip(64)))
    }
}

/// The bytes from `pos` on.
pub open spec fn rest_of(data: Seq<u8>, pos: usize) -> Seq<u8> {
    data.skip(pos as int)
}

/// An executable read agrees with its specification: the same value and the
/// same remaining bytes, or the same error.
pub open spec fn reads<T>(p: Parsed<T>, r: Result<T, SaveError>, after: Seq<u8>) -> bool {
    match p {
        Ok((v, rest)) => r == Ok::<T, SaveError>(v) && after == rest,
        Err(e) => r == Err::<T, SaveError>(e),
    }
}

fn take<'a>(data: &'a [u8], pos: &mut usize, n: usize) -> (r: Result<&'a [u8], SaveError>)
    requires
        *old(pos) <= data@.len(),
    ensures
        *final(pos) <= data@.len(),
        match r {
            Ok(b) => {
                &&& data@.len() - *old(pos) >= n
                &&& b@ == rest_of(data@, *old(pos)).take(n as int)
                &&& rest_of(data@, *final(pos)) == rest_of(data@, *old(pos)).skip(n as int)
            },
            Err(e) => data@.len() - *old(pos) < n && e == truncated(n as nat, rest_of(data@, *old(pos))),
        },
{
    let available = data.len() - *pos;
    if n > available {
        return Err(SaveError::Truncated { needed: n, available });
    }
    let b = slice_subrange(data, *pos, *pos + n);
    let ghost before = *pos;
    *pos = *pos + n;
    assert(b@ =~= rest_of(data@, before).take(n as int));
    assert(rest_of(data@, *pos) =~= rest_of(data@, before).skip(n as int));
    Ok(b)
}

fn read_u8(data: &[u8], pos: &mut usize) -> (r: Result<u8, SaveError>)
    requires
        *old(pos) <= data@.len(),
    ensures
        *final(pos) <= data@.len(),
        reads(parse_u8(rest_of(data@, *old(pos))), r, rest_of(data@, *final(pos))),
{
    match take(data, pos, 1) {
        Ok(b) => Ok(b[0]),
        Err(e) => Err(e),
    }
}

fn read_u16(data: &[u8], pos: &mut usize) -> (r: Result<u16, SaveError>)
    requires
        *old(pos) <= data@.len(),
    ensures
        *final(pos) <= data@.len(),
        reads(parse_u16(rest_of(data@, *old(pos))), r, rest_of(data@, *final(pos))),
{
    match take(data, pos, 2) {
        Ok(b) => Ok(u16_from_le_bytes(b)),
        Err(e) => Err(e),
    }
}

fn read_u32(data: &[u8], pos: &mut usize) -> (r: Result<u32, SaveError>)
    requires
        *old(pos) <= data@.len(),
    ensures
        *final(pos) <= data@.len(),
        reads(parse_u32(rest_of(data@, *old(pos))), r, rest_of(data@, *final(pos))),
{
    match take(data, pos, 4) {
        Ok(b) => Ok(u32_from_le_bytes(b)),
        Err(e) => Err(e),
    }
}

fn read_i32(data: &[u8], pos: &mut usize) -> (r: Result<i32, SaveError>)
    requires
        *old(pos) <= data@.len(),
    ensures
        *final(pos) <= data@.len(),
        reads(parse_i32(rest_of(data@, *old(pos))), r, rest_of(data@, *final(pos))),
{
    match read_u32(data, pos) {
        Ok(v) => Ok(v as i32),
        Err(e) => Err(e),
    }
}

fn read_f32(data: &[u8], pos: &mut usize) -> (r: Result<u32, SaveError>)
    requires
        *old(pos) <= data@.len(),
    ensures
        *final(pos) <= data@.len(),
        reads(parse_f32(rest_of(data@, *old(pos))), r, rest_of(data@, *final(pos))),
{
    match read_u32(data, pos) {
        Ok(v) => if is_finite_bits(v) {
            Ok(v)
        } else {
            Err(SaveError::Corrupt("non-finite float"))
        },
        Err(e) => Err(e),
    }
}

fn read_mask(data: &[u8], pos: &mut usize) -> (r: Result<[u8; MASK_BYTES], SaveError>)
    requires
        *old(pos) <= data@.len(),
    ensures
        *final(pos) <= data@.len(),
        match parse_mask(rest_of(data@, *old(pos))) {
            Ok((v, rest)) => r is Ok && r->Ok_0@ == v && rest_of(data@, *final(pos)) == rest,
            Err(e) => r == Err::<[u8; MASK_BYTES], SaveError>(e),
        },
{
    match take(data, pos, MASK_BYTES) {
        Ok(b) => {
            let mut out = [0u8; MASK_BYTES];
            let mut i: usize = 0;
            while i < MASK_BYTES
                invariant
                    b@.len() == MASK_BYTES,
                    i <= MASK_BYTES,
                    forall|j: int| 0 <= j < i ==> out@[j] == b@[j],
                decreases MASK_BYTES - i,
            {
                out[i] = b[i];
                i = i + 1;
            }
            assert(out@ =~= b@);
            Ok(out)
        },
        Err(e) => Err(e),
    }
}

// --- records ---------------------------------------------------------------------

/// A durability above what the item can have is clamped to its maximum.
pub open spec fn clamp_durability(dur: u16, item: u16) -> u16 {
    if dur <= max_durability_of(item) {
        dur
    } else {
        max_durability_of(item)
    }
}

/// One item slot record: slot index, item, count, durability. The item must
/// exist and the count must be possible for it.
pub open spec fn parse_slot(s: Seq<u8>) -> Parsed<(u8, ItemStack)> {
    match parse_u8(s) {
        Err(e) => Err(e),
        Ok((index, s1)) => match parse_u16(s1) {
            Err(e) => Err(e),
            Ok((item, s2)) => match parse_u8(s2) {
                Err(e) => Err(e),
                Ok((count, s3)) => match parse_u16(s3) {
                    Err(e) => Err(e),
                    Ok((dur, s4)) => if !item_known(item) {
                        Err(SaveError::Corrupt("unknown item id"))
                    } else if count == 0 || count > max_stack_of(item) {
                        Err(SaveError::Corrupt("impossible stack size"))
                    } else {
                        Ok(
                            (
                                (
                                    index,
                                    ItemStack {
                                        item: ItemId(item),
                                        count,
                                        durability: clamp_durability(dur, item),
                                    },
                                ),
                                s4,
                            ),
                        )
                    },
                },
            },
        },
    }
}

fn read_slot(data: &[u8], pos: &mut usize) -> (r: Result<(u8, ItemStack), SaveError>)
    requires
        *old(pos) <= data@.len(),
    ensures
        *final(pos) <= data@.len(),
        reads(parse_slot(rest_of(data@, *old(pos))), r, rest_of(data@, *final(pos))),
{
    let index = match read_u8(data, pos) {
        Ok(v) => v,
        Err(e) => return Err(e),
    };
    let item = match read_u16(data, pos) {
        Ok(v) => ItemId(v),
        Err(e) => return Err(e),
    };
    let count = match read_u8(data, pos) {
        Ok(v) => v,
        Err(e) => return Err(e),
    };
    let durability = match read_u16(data, pos) {
        Ok(v) => v,
        Err(e) => return Err(e),
    };
    if !item.is_valid() {
        return Err(SaveError::Corrupt("unknown item id"));
    }
    if count == 0 || count > item.max_stack() {
        return Err(SaveError::Corrupt("impossible stack size"));
    }
    let max = item.max_durability();
    let durability = if durability <= max {
        durability
    } else {
        max
    };
    Ok((index, ItemStack { item, count, durability }))
}

/// `n` empty slots.
pub open spec fn empty_slots(n: nat) -> Seq<Option<ItemStack>> {
    Seq::new(n, |i: int| None::<ItemStack>)
}

/// `n` inventory slot records, each filling an empty slot in range.
pub open spec fn parse_inventory_slots(s: Seq<u8>, n: nat, slots: Seq<Option<ItemStack>>) -> Parsed<
    Seq<Option<ItemStack>>,
>
    decreases n,
{
    if n == 0 {
        Ok((slots, s))
    } else {
        match parse_slot(s) {
            Err(e) => Err(e),
            Ok(((index, st), r)) => if index >= 36 {
                Err(SaveError::Corrupt("inventory slot index out of range"))
            } else if slots[index as int] is Some {
                Err(SaveError::Corrupt("duplicate inventory slot"))
            } else {
                parse_inventory_slots(r, (n - 1) as nat, slots.update(index as int, Some(st)))
            },
        }
    }
}

/// The selected hotbar slot (kept only if it is a hotbar slot), then the
/// occupied slot records.
pub open spec fn parse_inventory(s: Seq<u8>) -> Parsed<(int, Seq<Option<ItemStack>>)> {
    match parse_u8(s) {
        Err(e) => Err(e),
        Ok((sel, s1)) => match parse_u32(s1) {
            Err(e) => Err(e),
            Ok((n, s2)) => if n > 36 {
                Err(SaveError::Corrupt("more inventory slots than exist"))
            } else {
                match parse_inventory_slots(s2, n as nat, empty_slots(36)) {
                    Err(e) => Err(e),
                    Ok((slots, s3)) => Ok(
                        (
                            (
                                if sel < 9 {
                                    sel as int
                                } else {
                                    0
                                },
                                slots,
                            ),
                            s3,
                        ),
                    ),
                }
            },
        },
    }
}

fn read_inventory(data: &[u8], pos: &mut usize) -> (r: Result<Inventory, SaveError>)
    requires
        *old(pos) <= data@.len(),
    ensures
        *final(pos) <= data@.len(),
        match parse_inventory(rest_of(data@, *old(pos))) {
            Ok((v, rest)) => r is Ok && r->Ok_0@.selected == v.0 && r->Ok_0@.slots == v.1
                && rest_of(data@, *final(pos)) == rest,
            Err(e) => r == Err::<Inventory, SaveError>(e),
        },
{
    let ghost s0 = rest_of(data@, *pos);
    let selected = match read_u8(data, pos) {
        Ok(v) => v,
        Err(e) => return Err(e),
    };
    let ghost s1 = rest_of(data@, *pos);
    let mut inventory = Inventory::new();
    inventory.set_selected(selected as usize);
    let n = match read_u32(data, pos) {
        Ok(v) => v,
        Err(e) => return Err(e),
    };
    if n > 36 {
        return Err(SaveError::Corrupt("more inventory slots than exist"));
    }
    let ghost s2 = rest_of(data@, *pos);
    let ghost init = empty_slots(36);
    assert(inventory@.slots =~= init);
    let mut i: u32 = 0;
    while i < n
        invariant
            *pos <= data@.len(),
            i <= n <= 36,
            s0 == rest_of(data@, *old(pos)),
            parse_u8(s0) == Ok::<(u8, Seq<u8>), SaveError>((selected, s1)),
            parse_u32(s1) == Ok::<(u32, Seq<u8>), SaveError>((n, s2)),
            init == empty_slots(36),
            inventory@.slots.len() == 36,
            inventory@.selected == (if selected < 9 {
                selected as int
            } else {
                0
            }),
            parse_inventory_slots(s2, n as nat, init) == parse_inventory_slots(
                rest_of(data@, *pos),
                (n - i) as nat,
                inventory@.slots,
            ),
        decreases n - i,
    {
        let ghost slots_before = inventory@.slots;
        let (index, stack) = match read_slot(data, pos) {
            Ok(v) => v,
            Err(e) => return Err(e),
        };
        if index as usize >= 36 {
            return Err(SaveError::Corrupt("inventory slot index out of range"));
        }
        if inventory.slot(index as usize).is_some() {
            return Err(SaveError::Corrupt("duplicate inventory slot"));
        }
        inventory.set_slot(index as usize, Some(stack));
        assert(inventory@.slots == slots_before.update(index as int, Some(stack)));
        i = i + 1;
    }
    Ok(inventory)
}

/// `n` block edits of one chunk, inserted in file order.
pub open spec fn parse_blocks(s: Seq<u8>, n: nat, acc: Map<u16, BlockId>) -> Parsed<
    Map<u16, BlockId>,
>
    decreases n,
{
    if n == 0 {
        Ok((acc, s))
    } else {
        match parse_u16(s) {
            Err(e) => Err(e),
            Ok((index, s1)) => match parse_u8(s1) {
                Err(e) => Err(e),
                Ok((id, s2)) => if index >= 4096 {
                    Err(SaveError::Corrupt("block index outside chunk"))
                } else {
                    parse_blocks(s2, (n - 1) as nat, acc.insert(index, BlockId(id)))
                },
            },
        }
    }
}

/// `n` carve masks of one chunk, inserted in file order. An empty mask would
/// resurrect a destroyed block, so it is refused.
pub open spec fn parse_masks(s: Seq<u8>, n: nat, acc: Map<u16, Seq<u8>>) -> Parsed<
    Map<u16, Seq<u8>>,
>
    decreases n,
{
    if n == 0 {
        Ok((acc, s))
    } else {
        match parse_u16(s) {
            Err(e) => Err(e),
            Ok((index, s1)) => match parse_mask(s1) {
                Err(e) => Err(e),
                Ok((mask, s2)) => if index >= 4096 {
                    Err(SaveError::Corrupt("mask index outside chunk"))
                } else if all_bytes(mask, 0) {
                    Err(SaveError::Corrupt("empty carve mask"))
                } else {
                    parse_masks(s2, (n - 1) as nat, acc.insert(index, mask))
                },
            },
        }
    }
}

/// One chunk record: position, block edits, carve masks.
pub open spec fn parse_chunk(s: Seq<u8>) -> Parsed<(ChunkKey, DeltaView)> {
    match parse_i32(s) {
        Err(e) => Err(e),
        Ok((x, s1)) => match parse_i32(s1) {
            Err(e) => Err(e),
            Ok((y, s2)) => match parse_i32(s2) {
                Err(e) => Err(e),
                Ok((z, s3)) => match parse_u32(s3) {
                    Err(e) => Err(e),
                    Ok((nb, s4)) => if nb > 4096 {
                        Err(SaveError::Corrupt("more block edits than a chunk holds"))
                    } else {
                        match parse_blocks(s4, nb as nat, Map::empty()) {
                            Err(e) => Err(e),
                            Ok((blocks, s5)) => match parse_u32(s5) {
                                Err(e) => Err(e),
                                Ok((nm, s6)) => if nm > 4096 {
                                    Err(SaveError::Corrupt("more carve masks than a chunk holds"))
                                } else {
                                    match parse_masks(s6, nm as nat, Map::empty()) {
                                        Err(e) => Err(e),
                                        Ok((masks, s7)) => Ok(
                                            (((x, y, z), DeltaView { blocks, masks }), s7),
                                        ),
                                    }
                                },
                            },
                        }
                    },
                },
            },
        },
    }
}

/// `n` chunk records. A chunk with no edits is dropped; a later record for
/// the same chunk replaces an earlier one.
pub open spec fn parse_chunks(s: Seq<u8>, n: nat, acc: TrackerView) -> Parsed<TrackerView>
    decreases n,
{
    if n == 0 {
        Ok((acc, s))
    } else {
        match parse_chunk(s) {
            Err(e) => Err(e),
            Ok(((key, d), r)) => parse_chunks(
                r,
                (n - 1) as nat,
                if d == empty_delta() {
                    acc
                } else {
                    acc.insert(key, d)
                },
            ),
        }
    }
}

/// Chunk count, then the chunk records.
pub open spec fn parse_edits(s: Seq<u8>) -> Parsed<TrackerView> {
    match parse_u32(s) {
        Err(e) => Err(e),
        Ok((n, s1)) => parse_chunks(s1, n as nat, TrackerView::empty()),
    }
}

/// The health a loaded mob gets: what was saved, capped at its kind's
/// maximum.
pub open spec fn capped_health(health: u32, kind: crate::mob::MobKind) -> u32 {
    if health > max_health_bits_of(kind) {
        max_health_bits_of(kind)
    } else {
        health
    }
}

/// One mob record. The kind must be known, no undefined flag bit may be set,
/// and the health must be above zero.
pub open spec fn parse_mob(s: Seq<u8>) -> Parsed<MobSave> {
    match parse_u8(s) {
        Err(e) => Err(e),
        Ok((code, s0)) => match mob_kind_of_code(code) {
            None => Err(SaveError::Corrupt("unknown mob kind")),
            Some(kind) => match parse_f32(s0) {
                Err(e) => Err(e),
                Ok((px, s1)) => match parse_f32(s1) {
                    Err(e) => Err(e),
                    Ok((py, s2)) => match parse_f32(s2) {
                        Err(e) => Err(e),
                        Ok((pz, s3)) => match parse_f32(s3) {
                            Err(e) => Err(e),
                            Ok((vx, s4)) => match parse_f32(s4) {
                                Err(e) => Err(e),
                                Ok((vy, s5)) => match parse_f32(s5) {
                                    Err(e) => Err(e),
                                    Ok((vz, s6)) => match parse_f32(s6) {
                                        Err(e) => Err(e),
                                        Ok((yaw, s7)) => match parse_f32(s7) {
                                            Err(e) => Err(e),
                                            Ok((health, s8)) => match parse_u8(s8) {
                                                Err(e) => Err(e),
                                                Ok((flags, s9)) => if flags > 1 {
                                                    Err(SaveError::Corrupt("unknown mob flag bits"))
                                                } else if !positive_bits(health) {
                                                    Err(SaveError::Corrupt("mob saved with no health"))
                                                } else {
                                                    Ok(
                                                        (
                                                            MobSave {
                                                                kind,
                                                                pos: [px, py, pz],
                                                                vel: [vx, vy, vz],
                                                                yaw,
                                                                health: capped_health(health, kind),
                                                                on_ground: flags == 1,
                                                            },
                                                            s9,
                                                        ),
                                                    )
                                                },
                                            },
                                        },
                                    },
                                },
                            },
                        },
                    },
                },
            },
        },
    }
}

/// `n` mob records, in file order.
pub open spec fn parse_mob_list(s: Seq<u8>, n: nat, acc: Seq<MobSave>) -> Parsed<Seq<MobSave>>
    decreases n,
{
    if n == 0 {
        Ok((acc, s))
    } else {
        match parse_mob(s) {
            Err(e) => Err(e),
            Ok((m, r)) => parse_mob_list(r, (n - 1) as nat, acc.push(m)),
        }
    }
}

/// Mob count, then the mob records.
pub open spec fn parse_mobs(s: Seq<u8>) -> Parsed<Seq<MobSave>> {
    match parse_u32(s) {
        Err(e) => Err(e),
        Ok((n, s1)) => parse_mob_list(s1, n as nat, Seq::empty()),
    }
}

/// `n` container slot records, each filling an empty slot in range.
pub open spec fn parse_container_slots(s: Seq<u8>, n: nat, slots: Seq<Option<ItemStack>>) -> Parsed<
    Seq<Option<ItemStack>>,
>
    decreases n,
{
    if n == 0 {
        Ok((slots, s))
    } else {
        match parse_slot(s) {
            Err(e) => Err(e),
            Ok(((index, st), r)) => if index as int >= slots.len() {
                Err(SaveError::Corrupt("container slot index out of range"))
            } else if slots[index as int] is Some {
                Err(SaveError::Corrupt("duplicate container slot"))
            } else {
                parse_container_slots(r, (n - 1) as nat, slots.update(index as int, Some(st)))
            },
        }
    }
}

/// `n` finite `f32` fields, in order.
pub open spec fn parse_fields(s: Seq<u8>, n: nat, acc: Seq<u32>) -> Parsed<Seq<u32>>
    decreases n,
{
    if n == 0 {
        Ok((acc, s))
    } else {
        match parse_f32(s) {
            Err(e) => Err(e),
            Ok((f, r)) => parse_fields(r, (n - 1) as nat, acc.push(f)),
        }
    }
}

/// One container record. Unknown kinds are kept: the set of container kinds
/// is open.
pub open spec fn parse_container(s: Seq<u8>) -> Parsed<(BlockPos, ContainerView)> {
    match parse_i32(s) {
        Err(e) => Err(e),
        Ok((x, s1)) => match parse_i32(s1) {
            Err(e) => Err(e),
            Ok((y, s2)) => match parse_i32(s2) {
                Err(e) => Err(e),
                Ok((z, s3)) => match parse_u16(s3) {
                    Err(e) => Err(e),
                    Ok((kind, s4)) => match parse_u8(s4) {
                        Err(e) => Err(e),
                        Ok((ns, s5)) => if ns as int > MAX_CONTAINER_SLOTS {
                            Err(SaveError::Corrupt("container has more slots than possible"))
                        } else {
                            match parse_u8(s5) {
                                Err(e) => Err(e),
                                Ok((occ, s6)) => if occ > ns {
                                    Err(SaveError::Corrupt("more filled slots than the container has"))
                                } else {
                                    match parse_container_slots(
                                        s6,
                                        occ as nat,
                                        empty_slots(ns as nat),
                                    ) {
                                        Err(e) => Err(e),
                                        Ok((slots, s7)) => match parse_u8(s7) {
                                            Err(e) => Err(e),
                                            Ok((nf, s8)) => if nf as int > MAX_CONTAINER_FIELDS {
                                                Err(SaveError::Corrupt("container has more fields than possible"))
                                            } else {
                                                match parse_fields(s8, nf as nat, Seq::empty()) {
                                                    Err(e) => Err(e),
                                                    Ok((fields, s9)) => Ok(
                                                        (
                                                            (
                                                                (x, y, z),
                                                                ContainerView {
                                                                    kind: ContainerKind(kind),
                                                                    slots,
                                                                    fields,
                                                                },
                                                            ),
                                                            s9,
                                                        ),
                                                    ),
                                                }
                                            },
                                        },
                                    }
                                }
                            }
                        },
                    },
                },
            },
        },
    }
}

/// `n` container records; two at one block are refused.
pub open spec fn parse_container_list(s: Seq<u8>, n: nat, acc: Map<BlockPos, ContainerView>) -> Parsed<
    Map<BlockPos, ContainerView>,
>
    decreases n,
{
    if n == 0 {
        Ok((acc, s))
    } else {
        match parse_container(s) {
            Err(e) => Err(e),
            Ok(((p, c), r)) => if acc.contains_key(p) {
                Err(SaveError::Corrupt("two containers at one block"))
            } else {
                parse_container_list(r, (n - 1) as nat, acc.insert(p, c))
            },
        }
    }
}

/// Container count, then the container records.
pub open spec fn parse_containers(s: Seq<u8>) -> Parsed<Map<BlockPos, ContainerView>> {
    match parse_u32(s) {
        Err(e) => Err(e),
        Ok((n, s1)) => parse_container_list(s1, n as nat, Map::empty()),
    }
}

/// Player position, yaw, pitch and health, each a finite `f32`.
pub open spec fn parse_player(s: Seq<u8>) -> Parsed<PlayerSave> {
    match parse_f32(s) {
        Err(e) => Err(e),
        Ok((x, s1)) => match parse_f32(s1) {
            Err(e) => Err(e),
            Ok((y, s2)) => match parse_f32(s2) {
                Err(e) => Err(e),
                Ok((z, s3)) => match parse_f32(s3) {
                    Err(e) => Err(e),
                    Ok((yaw, s4)) => match parse_f32(s4) {
                        Err(e) => Err(e),
                        Ok((pitch, s5)) => match parse_f32(s5) {
                            Err(e) => Err(e),
                            Ok((health, s6)) => Ok(
                                (PlayerSave { pos: [x, y, z], yaw, pitch, health }, s6),
                            ),
                        },
                    },
                },
            },
        },
    }
}

/// The mob and container sections: present from version 2 on, empty before.
pub open spec fn parse_live(s: Seq<u8>, version: u32) -> Parsed<
    (Seq<MobSave>, Map<BlockPos, ContainerView>),
> {
    if version >= 2 {
        match parse_mobs(s) {
            Err(e) => Err(e),
            Ok((mobs, s1)) => match parse_containers(s1) {
                Err(e) => Err(e),
                Ok((containers, s2)) => Ok(((mobs, containers), s2)),
            },
        }
    } else {
        Ok(((Seq::empty(), Map::empty()), s))
    }
}

/// The whole file: the save it holds and the bytes after its last section.
#[verifier::opaque]
pub open spec fn parse_save(s: Seq<u8>) -> Parsed<SaveView> {
    if s.len() < 4 {
        Err(truncated(4, s))
    } else if s.take(4) != magic_bytes() {
        Err(SaveError::BadMagic([s[0], s[1], s[2], s[3]]))
    } else {
        match parse_u32(s.skip(4)) {
            Err(e) => Err(e),
            Ok((version, s1)) => if version < MIN_VERSION || version > VERSION {
                Err(SaveError::UnsupportedVersion { found: version, supported: VERSION })
            } else {
                match parse_u32(s1) {
                    Err(e) => Err(e),
                    Ok((seed, s2)) => match parse_player(s2) {
                        Err(e) => Err(e),
                        Ok((player, s3)) => match parse_inventory(s3) {
                            Err(e) => Err(e),
                            Ok((inv, s4)) => match parse_edits(s4) {
                                Err(e) => Err(e),
                                Ok((edits, s5)) => match parse_live(s5, version) {
                                    Err(e) => Err(e),
                                    Ok(((mobs, containers), s6)) => Ok(
                                        (
                                            SaveView {
                                                seed,
                                                player,
                                                selected: inv.0,
                                                slots: inv.1,
                                                edits,
                                                mobs,
                                                containers,
                                            },
                                            s6,
                                        ),
                                    ),
                                },
                            },
                        },
                    },
                }
            },
        }
    }
}

/// What a byte string loads as. Bytes after the last section are ignored.
pub open spec fn load_spec(s: Seq<u8>) -> Result<SaveView, SaveError> {
    match parse_save(s) {
        Err(e) => Err(e),
        Ok((v, _)) => Ok(v),
    }
}

// --- executable readers, section by section ---------------------------------------

fn read_chunk(data: &[u8], pos: &mut usize) -> (r: Result<(ChunkKey, ChunkDelta), SaveError>)
    requires
        *old(pos) <= data@.len(),
    ensures
        *final(pos) <= data@.len(),
        match parse_chunk(rest_of(data@, *old(pos))) {
            Ok((v, rest)) => {
                &&& r is Ok
                &&& r->Ok_0.0 == v.0
                &&& r->Ok_0.1@ == v.1
                &&& r->Ok_0.1.blocks.wf()
                &&& r->Ok_0.1.masks.wf()
                &&& forall|k: u16| #[trigger] r->Ok_0.1.blocks@.contains_key(k) ==> k < 4096
                &&& forall|k: u16| #[trigger] r->Ok_0.1.masks@.contains_key(k) ==> k < 4096
                    && !all_bytes(r->Ok_0.1.masks@[k]@, 0)
                &&& rest_of(data@, *final(pos)) == rest
            },
            Err(e) => r == Err::<(ChunkKey, ChunkDelta), SaveError>(e),
        },
{
    let ghost s0 = rest_of(data@, *pos);
    let x = match read_i32(data, pos) {
        Ok(v) => v,
        Err(e) => return Err(e),
    };
    let ghost s1 = rest_of(data@, *pos);
    let y = match read_i32(data, pos) {
        Ok(v) => v,
        Err(e) => return Err(e),
    };
    let ghost s2 = rest_of(data@, *pos);
    let z = match read_i32(data, pos) {
        Ok(v) => v,
        Err(e) => return Err(e),
    };
    let ghost s3 = rest_of(data@, *pos);
    let nb = match read_u32(data, pos) {
        Ok(v) => v,
        Err(e) => return Err(e),
    };
    if nb > 4096 {
        return Err(SaveError::Corrupt("more block edits than a chunk holds"));
    }
    let ghost s4 = rest_of(data@, *pos);
    let mut delta = ChunkDelta::new();
    let mut i: u32 = 0;
    while i < nb
        invariant
            *pos <= data@.len(),
            i <= nb <= 4096,
            s0 == rest_of(data@, *old(pos)),
            parse_i32(s0) == Ok::<(i32, Seq<u8>), SaveError>((x, s1)),
            parse_i32(s1) == Ok::<(i32, Seq<u8>), SaveError>((y, s2)),
            parse_i32(s2) == Ok::<(i32, Seq<u8>), SaveError>((z, s3)),
            parse_u32(s3) == Ok::<(u32, Seq<u8>), SaveError>((nb, s4)),
            delta.blocks.wf(),
            delta.masks.wf(),
            delta@.masks == Map::<u16, Seq<u8>>::empty(),
            delta.masks@ == Map::<u16, [u8; MASK_BYTES]>::empty(),
            forall|k: u16| #[trigger] delta.blocks@.contains_key(k) ==> k < 4096,
            parse_blocks(s4, nb as nat, Map::empty()) == parse_blocks(
                rest_of(data@, *pos),
                (nb - i) as nat,
                delta.blocks@,
            ),
        decreases nb - i,
    {
        let index = match read_u16(data, pos) {
            Ok(v) => v,
            Err(e) => return Err(e),
        };
        let id = match read_u8(data, pos) {
            Ok(v) => v,
            Err(e) => return Err(e),
        };
        if index as usize >= 4096 {
            return Err(SaveError::Corrupt("block index outside chunk"));
        }
        delta.blocks.insert(index, BlockId(id));
        i = i + 1;
    }
    let ghost s5 = rest_of(data@, *pos);
    let ghost blocks = delta.blocks@;
    let nm = match read_u32(data, pos) {
        Ok(v) => v,
        Err(e) => return Err(e),
    };
    if nm > 4096 {
        return Err(SaveError::Corrupt("more carve masks than a chunk holds"));
    }
    let ghost s6 = rest_of(data@, *pos);
    let mut j: u32 = 0;
    while j < nm
        invariant
            *pos <= data@.len(),
            j <= nm <= 4096,
            nb <= 4096,
            s0 == rest_of(data@, *old(pos)),
            parse_i32(s0) == Ok::<(i32, Seq<u8>), SaveError>((x, s1)),
            parse_i32(s1) == Ok::<(i32, Seq<u8>), SaveError>((y, s2)),
            parse_i32(s2) == Ok::<(i32, Seq<u8>), SaveError>((z, s3)),
            parse_u32(s3) == Ok::<(u32, Seq<u8>), SaveError>((nb, s4)),
            parse_blocks(s4, nb as nat, Map::empty()) == Ok::<(Map<u16, BlockId>, Seq<u8>), SaveError>((blocks, s5)),
            parse_u32(s5) == Ok::<(u32, Seq<u8>), SaveError>((nm, s6)),
            delta.blocks.wf(),
            delta.masks.wf(),
            delta.blocks@ == blocks,
            forall|k: u16| #[trigger] delta.blocks@.contains_key(k) ==> k < 4096,
            forall|k: u16| #[trigger] delta.masks@.contains_key(k) ==> k < 4096 && !all_bytes(
                delta.masks@[k]@,
                0,
            ),
            parse_masks(s6, nm as nat, Map::empty()) == parse_masks(
                rest_of(data@, *pos),
                (nm - j) as nat,
                delta@.masks,
            ),
        decreases nm - j,
    {
        let index = match read_u16(data, pos) {
            Ok(v) => v,
            Err(e) => return Err(e),
        };
        let mask = match read_mask(data, pos) {
            Ok(v) => v,
            Err(e) => return Err(e),
        };
        if index as usize >= 4096 {
            return Err(SaveError::Corrupt("mask index outside chunk"));
        }
        if crate::save::mask_is_empty(&mask) {
            return Err(SaveError::Corrupt("empty carve mask"));
        }
        let ghost before = delta@.masks;
        delta.masks.insert(index, mask);
        assert(delta@.masks =~= before.insert(index, mask@));
        j = j + 1;
    }
    assert(parse_chunk(s0) == Ok::<((ChunkKey, DeltaView), Seq<u8>), SaveError>(
        (((x, y, z), delta@), rest_of(data@, *pos)),
    ));
    Ok(((x, y, z), delta))
}

fn read_edits(data: &[u8], pos: &mut usize) -> (r: Result<ChangeTracker, SaveError>)
    requires
        *old(pos) <= data@.len(),
    ensures
        *final(pos) <= data@.len(),
        match parse_edits(rest_of(data@, *old(pos))) {
            Ok((v, rest)) => r is Ok && r->Ok_0@ == v && r->Ok_0.wf() && rest_of(data@, *final(pos))
                == rest,
            Err(e) => r == Err::<ChangeTracker, SaveError>(e),
        },
{
    let ghost s0 = rest_of(data@, *pos);
    let n = match read_u32(data, pos) {
        Ok(v) => v,
        Err(e) => return Err(e),
    };
    let ghost s1 = rest_of(data@, *pos);
    let mut edits = ChangeTracker::new();
    let mut i: u32 = 0;
    while i < n
        invariant
            *pos <= data@.len(),
            i <= n,
            edits.wf(),
            s0 == rest_of(data@, *old(pos)),
            parse_u32(s0) == Ok::<(u32, Seq<u8>), SaveError>((n, s1)),
            parse_chunks(s1, n as nat, TrackerView::empty()) == parse_chunks(
                rest_of(data@, *pos),
                (n - i) as nat,
                edits@,
            ),
        decreases n - i,
    {
        let (key, delta) = match read_chunk(data, pos) {
            Ok(v) => v,
            Err(e) => return Err(e),
        };
        if !delta.is_empty() {
            edits.insert_chunk(key, delta);
        } else {
            assert(delta@.blocks =~= empty_delta().blocks);
            assert(delta@.masks =~= empty_delta().masks);
        }
        proof {
            if delta@ == empty_delta() {
                assert(delta.masks@.dom() =~= delta@.masks.dom());
                assert(delta.masks@ =~= Map::<u16, [u8; MASK_BYTES]>::empty());
            }
        }
        i = i + 1;
    }
    Ok(edits)
}

fn read_mob(data: &[u8], pos: &mut usize) -> (r: Result<MobSave, SaveError>)
    requires
        *old(pos) <= data@.len(),
    ensures
        *final(pos) <= data@.len(),
        reads(parse_mob(rest_of(data@, *old(pos))), r, rest_of(data@, *final(pos))),
{
    let code = match read_u8(data, pos) {
        Ok(v) => v,
        Err(e) => return Err(e),
    };
    let kind = match mob_kind_from_code(code) {
        Some(k) => k,
        None => return Err(SaveError::Corrupt("unknown mob kind")),
    };
    let px = match read_f32(data, pos) {
        Ok(v) => v,
        Err(e) => return Err(e),
    };
    let py = match read_f32(data, pos) {
        Ok(v) => v,
        Err(e) => return Err(e),
    };
    let pz = match read_f32(data, pos) {
        Ok(v) => v,
        Err(e) => return Err(e),
    };
    let vx = match read_f32(data, pos) {
        Ok(v) => v,
        Err(e) => return Err(e),
    };
    let vy = match read_f32(data, pos) {
        Ok(v) => v,
        Err(e) => return Err(e),
    };
    let vz = match read_f32(data, pos) {
        Ok(v) => v,
        Err(e) => return Err(e),
    };
    let yaw = match read_f32(data, pos) {
        Ok(v) => v,
        Err(e) => return Err(e),
    };
    let health = match read_f32(data, pos) {
        Ok(v) => v,
        Err(e) => return Err(e),
    };
    let flags = match read_u8(data, pos) {
        Ok(v) => v,
        Err(e) => return Err(e),
    };
    if flags > 1 {
        return Err(SaveError::Corrupt("unknown mob flag bits"));
    }
    if !(0 < health && health < 0x7F80_0000) {
        return Err(SaveError::Corrupt("mob saved with no health"));
    }
    let max = kind.max_health_bits();
    let health = if health > max {
        max
    } else {
        health
    };
    Ok(MobSave { kind, pos: [px, py, pz], vel: [vx, vy, vz], yaw, health, on_ground: flags == 1 })
}

fn read_mobs(data: &[u8], pos: &mut usize) -> (r: Result<Vec<MobSave>, SaveError>)
    requires
        *old(pos) <= data@.len(),
    ensures
        *final(pos) <= data@.len(),
        match parse_mobs(rest_of(data@, *old(pos))) {
            Ok((v, rest)) => r is Ok && r->Ok_0@ == v && rest_of(data@, *final(pos)) == rest,
            Err(e) => r == Err::<Vec<MobSave>, SaveError>(e),
        },
{
    let ghost s0 = rest_of(data@, *pos);
    let n = match read_u32(data, pos) {
        Ok(v) => v,
        Err(e) => return Err(e),
    };
    let ghost s1 = rest_of(data@, *pos);
    let mut mobs: Vec<MobSave> = Vec::new();
    let mut i: u32 = 0;
    while i < n
        invariant
            *pos <= data@.len(),
            i <= n,
            s0 == rest_of(data@, *old(pos)),
            parse_u32(s0) == Ok::<(u32, Seq<u8>), SaveError>((n, s1)),
            parse_mob_list(s1, n as nat, Seq::empty()) == parse_mob_list(
                rest_of(data@, *pos),
                (n - i) as nat,
                mobs@,
            ),
        decreases n - i,
    {
        let m = match read_mob(data, pos) {
            Ok(v) => v,
            Err(e) => return Err(e),
        };
        mobs.push(m);
        i = i + 1;
    }
    Ok(mobs)
}

fn read_container(data: &[u8], pos: &mut usize) -> (r: Result<(BlockPos, ContainerSave), SaveError>)
    requires
        *old(pos) <= data@.len(),
    ensures
        *final(pos) <= data@.len(),
        match parse_container(rest_of(data@, *old(pos))) {
            Ok((v, rest)) => r is Ok && r->Ok_0.0 == v.0 && r->Ok_0.1@ == v.1 && rest_of(
                data@,
                *final(pos),
            ) == rest,
            Err(e) => r == Err::<(BlockPos, ContainerSave), SaveError>(e),
        },
{
    let ghost s0 = rest_of(data@, *pos);
    let x = match read_i32(data, pos) {
        Ok(v) => v,
        Err(e) => return Err(e),
    };
    let ghost s1 = rest_of(data@, *pos);
    let y = match read_i32(data, pos) {
        Ok(v) => v,
        Err(e) => return Err(e),
    };
    let ghost s2 = rest_of(data@, *pos);
    let z = match read_i32(data, pos) {
        Ok(v) => v,
        Err(e) => return Err(e),
    };
    let ghost s3 = rest_of(data@, *pos);
    let kind = match read_u16(data, pos) {
        Ok(v) => ContainerKind(v),
        Err(e) => return Err(e),
    };
    let ghost s4 = rest_of(data@, *pos);
    let ns = match read_u8(data, pos) {
        Ok(v) => v,
        Err(e) => return Err(e),
    };
    if ns as usize > MAX_CONTAINER_SLOTS {
        return Err(SaveError::Corrupt("container has more slots than possible"));
    }
    let ghost s5 = rest_of(data@, *pos);
    let occupied = match read_u8(data, pos) {
        Ok(v) => v,
        Err(e) => return Err(e),
    };
    if occupied > ns {
        return Err(SaveError::Corrupt("more filled slots than the container has"));
    }
    let ghost s6 = rest_of(data@, *pos);
    let mut slots: Vec<Option<ItemStack>> = Vec::new();
    let mut k: u8 = 0;
    while k < ns
        invariant
            k <= ns,
            slots@ == empty_slots(k as nat),
        decreases ns - k,
    {
        slots.push(None);
        k = k + 1;
        assert(slots@ =~= empty_slots(k as nat));
    }
    let mut i: u8 = 0;
    while i < occupied
        invariant
            *pos <= data@.len(),
            i <= occupied <= ns,
            s0 == rest_of(data@, *old(pos)),
            parse_i32(s0) == Ok::<(i32, Seq<u8>), SaveError>((x, s1)),
            parse_i32(s1) == Ok::<(i32, Seq<u8>), SaveError>((y, s2)),
            parse_i32(s2) == Ok::<(i32, Seq<u8>), SaveError>((z, s3)),
            parse_u16(s3) == Ok::<(u16, Seq<u8>), SaveError>((kind.0, s4)),
            parse_u8(s4) == Ok::<(u8, Seq<u8>), SaveError>((ns, s5)),
            ns <= 64,
            parse_u8(s5) == Ok::<(u8, Seq<u8>), SaveError>((occupied, s6)),
            slots@.len() == ns,
            parse_container_slots(s6, occupied as nat, empty_slots(ns as nat))
                == parse_container_slots(rest_of(data@, *pos), (occupied - i) as nat, slots@),
        decreases occupied - i,
    {
        let (index, stack) = match read_slot(data, pos) {
            Ok(v) => v,
            Err(e) => return Err(e),
        };
        if index >= ns {
            return Err(SaveError::Corrupt("container slot index out of range"));
        }
        if slots[index as usize].is_some() {
            return Err(SaveError::Corrupt("duplicate container slot"));
        }
        slots.set(index as usize, Some(stack));
        i = i + 1;
    }
    let ghost s7 = rest_of(data@, *pos);
    let ghost filled = slots@;
    let nf = match read_u8(data, pos) {
        Ok(v) => v,
        Err(e) => return Err(e),
    };
    if nf as usize > MAX_CONTAINER_FIELDS {
        return Err(SaveError::Corrupt("container has more fields than possible"));
    }
    let ghost s8 = rest_of(data@, *pos);
    let mut fields: Vec<u32> = Vec::new();
    let mut j: u8 = 0;
    while j < nf
        invariant
            *pos <= data@.len(),
            j <= nf <= 16,
            s0 == rest_of(data@, *old(pos)),
            parse_i32(s0) == Ok::<(i32, Seq<u8>), SaveError>((x, s1)),
            parse_i32(s1) == Ok::<(i32, Seq<u8>), SaveError>((y, s2)),
            parse_i32(s2) == Ok::<(i32, Seq<u8>), SaveError>((z, s3)),
            parse_u16(s3) == Ok::<(u16, Seq<u8>), SaveError>((kind.0, s4)),
            parse_u8(s4) == Ok::<(u8, Seq<u8>), SaveError>((ns, s5)),
            ns <= 64,
            parse_u8(s5) == Ok::<(u8, Seq<u8>), SaveError>((occupied, s6)),
            occupied <= ns,
            parse_container_slots(s6, occupied as nat, empty_slots(ns as nat)) == Ok::<(Seq<Option<ItemStack>>, Seq<u8>), SaveError>((filled, s7)),
            parse_u8(s7) == Ok::<(u8, Seq<u8>), SaveError>((nf, s8)),
            slots@ == filled,
            parse_fields(s8, nf as nat, Seq::empty()) == parse_fields(
                rest_of(data@, *pos),
                (nf - j) as nat,
                fields@,
            ),
        decreases nf - j,
    {
        let f = match read_f32(data, pos) {
            Ok(v) => v,
            Err(e) => return Err(e),
        };
        fields.push(f);
        j = j + 1;
    }
    Ok(((x, y, z), ContainerSave { kind, slots, fields }))
}

fn read_containers(data: &[u8], pos: &mut usize) -> (r: Result<
    OrderedMap<BlockPos, ContainerSave>,
    SaveError,
>)
    requires
        *old(pos) <= data@.len(),
    ensures
        *final(pos) <= data@.len(),
        match parse_containers(rest_of(data@, *old(pos))) {
            Ok((v, rest)) => r is Ok && container_views(r->Ok_0@) == v && r->Ok_0.wf() && rest_of(
                data@,
                *final(pos),
            ) == rest,
            Err(e) => r == Err::<OrderedMap<BlockPos, ContainerSave>, SaveError>(e),
        },
{
    let ghost s0 = rest_of(data@, *pos);
    let n = match read_u32(data, pos) {
        Ok(v) => v,
        Err(e) => return Err(e),
    };
    let ghost s1 = rest_of(data@, *pos);
    let mut containers: OrderedMap<BlockPos, ContainerSave> = OrderedMap::new();
    assert(container_views(containers@) =~= Map::<BlockPos, ContainerView>::empty());
    let mut i: u32 = 0;
    while i < n
        invariant
            *pos <= data@.len(),
            i <= n,
            containers.wf(),
            s0 == rest_of(data@, *old(pos)),
            parse_u32(s0) == Ok::<(u32, Seq<u8>), SaveError>((n, s1)),
            parse_container_list(s1, n as nat, Map::empty()) == parse_container_list(
                rest_of(data@, *pos),
                (n - i) as nat,
                container_views(containers@),
            ),
        decreases n - i,
    {
        let (p, c) = match read_container(data, pos) {
            Ok(v) => v,
            Err(e) => return Err(e),
        };
        if containers.contains_key(&p) {
            return Err(SaveError::Corrupt("two containers at one block"));
        }
        let ghost before = containers@;
        let ghost cv = c@;
        containers.insert(p, c);
        assert(container_views(containers@) =~= container_views(before).insert(p, cv));
        i = i + 1;
    }
    Ok(containers)
}

fn read_player(data: &[u8], pos: &mut usize) -> (r: Result<PlayerSave, SaveError>)
    requires
        *old(pos) <= data@.len(),
    ensures
        *final(pos) <= data@.len(),
        reads(parse_player(rest_of(data@, *old(pos))), r, rest_of(data@, *final(pos))),
{
    let x = match read_f32(data, pos) {
        Ok(v) => v,
        Err(e) => return Err(e),
    };
    let y = match read_f32(data, pos) {
        Ok(v) => v,
        Err(e) => return Err(e),
    };
    let z = match read_f32(data, pos) {
        Ok(v) => v,
        Err(e) => return Err(e),
    };
    let yaw = match read_f32(data, pos) {
        Ok(v) => v,
        Err(e) => return Err(e),
    };
    let pitch = match read_f32(data, pos) {
        Ok(v) => v,
        Err(e) => return Err(e),
    };
    let health = match read_f32(data, pos) {
        Ok(v) => v,
        Err(e) => return Err(e),
    };
    Ok(PlayerSave { pos: [x, y, z], yaw, pitch, health })
}

/// Parse a save from bytes, exactly as [`load_spec`] describes: a wrong
/// magic, an unknown version, a truncated file and impossible values each
/// give their own error, and nothing panics.
pub fn load_from_bytes(bytes: &[u8]) -> (r: Result<SaveData, SaveError>)
    ensures
        match load_spec(bytes@) {
            Ok(v) => r is Ok && r->Ok_0@ == v && r->Ok_0.edits.wf() && r->Ok_0.containers.wf(),
            Err(e) => r == Err::<SaveData, SaveError>(e),
        },
{
    proof {
        reveal(parse_save);
    }
    let mut pos: usize = 0;
    assert(rest_of(bytes@, 0) =~= bytes@);
    let magic = match take(bytes, &mut pos, 4) {
        Ok(b) => b,
        Err(e) => return Err(e),
    };
    if magic[0] != MAGIC[0] || magic[1] != MAGIC[1] || magic[2] != MAGIC[2] || magic[3] != MAGIC[3] {
        proof {
            assert(bytes@.take(4) != magic_bytes()) by {
                if bytes@.take(4) == magic_bytes() {
                    assert(bytes@.take(4)[0] == magic_bytes()[0]);
                    assert(bytes@.take(4)[1] == magic_bytes()[1]);
                    assert(bytes@.take(4)[2] == magic_bytes()[2]);
                    assert(bytes@.take(4)[3] == magic_bytes()[3]);
                }
            }
        }
        return Err(SaveError::BadMagic([magic[0], magic[1], magic[2], magic[3]]));
    }
    assert(bytes@.take(4) =~= magic_bytes());
    assert(rest_of(bytes@, pos) =~= bytes@.skip(4));
    let version = match read_u32(bytes, &mut pos) {
        Ok(v) => v,
        Err(e) => return Err(e),
    };
    if version < MIN_VERSION || version > VERSION {
        return Err(SaveError::UnsupportedVersion { found: version, supported: VERSION });
    }
    let seed = match read_u32(bytes, &mut pos) {
        Ok(v) => v,
        Err(e) => return Err(e),
    };
    let player = match read_player(bytes, &mut pos) {
        Ok(v) => v,
        Err(e) => return Err(e),
    };
    let inventory = match read_inventory(bytes, &mut pos) {
        Ok(v) => v,
        Err(e) => return Err(e),
    };
    let edits = match read_edits(bytes, &mut pos) {
        Ok(v) => v,
        Err(e) => return Err(e),
    };
    let ghost s5 = rest_of(bytes@, pos);
    let (mobs, containers) = if version >= 2 {
        let mobs = match read_mobs(bytes, &mut pos) {
            Ok(v) => v,
            Err(e) => return Err(e),
        };
        let containers = match read_containers(bytes, &mut pos) {
            Ok(v) => v,
            Err(e) => return Err(e),
        };
        (mobs, containers)
    } else {
        let containers: OrderedMap<BlockPos, ContainerSave> = OrderedMap::new();
        assert(container_views(containers@) =~= Map::<BlockPos, ContainerView>::empty());
        (Vec::new(), containers)
    };
    Ok(SaveData { seed, player, inventory, edits, mobs, containers })
}

} // verus!
