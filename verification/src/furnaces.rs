//! Furnaces whose block is gone.
//!
//! A furnace's contents live beside the world, keyed by its block. When the
//! block is mined or blown up, that entry has to go too, and what it held has
//! to come back out: an entry left behind would hand its items to whoever
//! builds a furnace on the spot next, and would grow the save forever.
use vstd::prelude::*;
use crate::block::{BlockId, FURNACE};
use crate::inventory::ItemStack;
use crate::ordered_map::{index_of_key, lemma_key_unique, lemma_seq_map_at, seq_map, sorted_keys, OrderedMap};
use crate::save::{BlockPos, ContainerSave};

verus! {

/// `p` lies in the box from `lo` to `hi`, both corners included.
pub open spec fn in_region(p: BlockPos, lo: BlockPos, hi: BlockPos) -> bool {
    &&& lo.0 <= p.0 <= hi.0
    &&& lo.1 <= p.1 <= hi.1
    &&& lo.2 <= p.2 <= hi.2
}

/// The stacks in a run of slots, in slot order, empty slots skipped.
pub open spec fn stacks_in(slots: Seq<Option<ItemStack>>) -> Seq<ItemStack>
    decreases slots.len(),
{
    if slots.len() == 0 {
        Seq::empty()
    } else {
        match slots.last() {
            Some(s) => stacks_in(slots.drop_last()).push(s),
            None => stacks_in(slots.drop_last()),
        }
    }
}

/// What the furnaces among `es` that `m` no longer holds contained, furnace
/// after furnace in the order of `es`.
pub open spec fn salvage_of(es: Seq<(BlockPos, ContainerSave)>, m: Map<BlockPos, ContainerSave>) -> Seq<
    ItemStack,
>
    decreases es.len(),
{
    if es.len() == 0 {
        Seq::empty()
    } else {
        let e = es.last();
        salvage_of(es.drop_last(), m) + if m.contains_key(e.0) {
            Seq::<ItemStack>::empty()
        } else {
            stacks_in(e.1.slots@)
        }
    }
}

/// Whether a furnace at `p` was still standing, by what `block_at` answered
/// for `p`.
pub open spec fn answered_furnace<F: Fn(i32, i32, i32) -> BlockId>(block_at: F, p: BlockPos) -> bool {
    block_at.ensures((p.0, p.1, p.2), BlockId(FURNACE))
}

/// Whether `block_at` answered something other than a furnace for `p`.
pub open spec fn answered_other<F: Fn(i32, i32, i32) -> BlockId>(block_at: F, p: BlockPos) -> bool {
    exists|b: BlockId| #[trigger] block_at.ensures((p.0, p.1, p.2), b) && b != BlockId(FURNACE)
}

proof fn lemma_salvage_agrees(
    es: Seq<(BlockPos, ContainerSave)>,
    m1: Map<BlockPos, ContainerSave>,
    m2: Map<BlockPos, ContainerSave>,
)
    requires
        forall|j: int| 0 <= j < es.len() ==> (m1.contains_key(#[trigger] es[j].0) <==> m2.contains_key(es[j].0)),
    ensures
        salvage_of(es, m1) == salvage_of(es, m2),
    decreases es.len(),
{
    if es.len() > 0 {
        let d = es.drop_last();
        assert forall|j: int| 0 <= j < d.len() implies (m1.contains_key(#[trigger] d[j].0) <==> m2.contains_key(
            d[j].0,
        )) by {
            assert(d[j] == es[j]);
        }
        lemma_salvage_agrees(d, m1, m2);
    }
}

/// Append the stacks of `slots` to `out`.
fn push_stacks(out: &mut Vec<ItemStack>, slots: &Vec<Option<ItemStack>>)
    ensures
        final(out)@ == old(out)@ + stacks_in(slots@),
{
    let ghost start = out@;
    let mut j: usize = 0;
    while j < slots.len()
        invariant
            j <= slots@.len(),
            out@ == start + stacks_in(slots@.take(j as int)),
        decreases slots@.len() - j,
    {
        assert(slots@.take(j + 1).drop_last() =~= slots@.take(j as int));
        if let Some(s) = slots[j] {
            out.push(s);
        }
        j = j + 1;
    }
    assert(slots@.take(slots@.len() as int) =~= slots@);
}

/// Forget every furnace in the box from `lo` to `hi` whose block no longer
/// is a furnace, and hand back everything those furnaces held: input, fuel
/// and output of each, furnace after furnace in position order.
///
/// Furnaces outside the box are never touched. The box is what keeps the
/// sweep honest: outside the loaded area `block_at` answers from raw
/// terrain, which holds no furnaces, and an unbounded sweep would eat every
/// furnace the player owns.
pub fn forget_orphan_furnaces(
    furnaces: &mut OrderedMap<BlockPos, ContainerSave>,
    lo: BlockPos,
    hi: BlockPos,
    block_at: impl Fn(i32, i32, i32) -> BlockId,
) -> (salvaged: Vec<ItemStack>)
    requires
        forall|x: i32, y: i32, z: i32| block_at.requires((x, y, z)),
    ensures
        final(furnaces).wf(),
        forall|p: BlockPos|
            #![trigger final(furnaces)@.contains_key(p)]
            final(furnaces)@.contains_key(p) ==> old(furnaces)@.contains_key(p) && final(furnaces)@[p]
                == old(furnaces)@[p],
        forall|p: BlockPos|
            #![trigger old(furnaces)@.contains_key(p)]
            #![trigger final(furnaces)@.contains_key(p)]
            old(furnaces)@.contains_key(p) && !in_region(p, lo, hi) ==> final(furnaces)@.contains_key(p),
        forall|p: BlockPos|
            #![trigger old(furnaces)@.contains_key(p)]
            #![trigger final(furnaces)@.contains_key(p)]
            old(furnaces)@.contains_key(p) && in_region(p, lo, hi) && final(furnaces)@.contains_key(p)
                ==> answered_furnace(block_at, p),
        forall|p: BlockPos|
            #![trigger old(furnaces)@.contains_key(p)]
            #![trigger final(furnaces)@.contains_key(p)]
            old(furnaces)@.contains_key(p) && !final(furnaces)@.contains_key(p) ==> in_region(p, lo, hi)
                && answered_other(block_at, p),
        salvaged@ == salvage_of(old(furnaces).entries(), final(furnaces)@),
{
    proof {
        use_type_invariant(&*furnaces);
    }
    let ghost es = furnaces.entries();
    let ghost m0 = furnaces@;
    let n = furnaces.len();
    let mut keys: Vec<BlockPos> = Vec::new();
    let mut i: usize = 0;
    while i < n
        invariant
            n == es.len(),
            i <= n,
            furnaces.entries() == es,
            keys@.len() == i,
            forall|j: int| 0 <= j < i ==> keys@[j] == (#[trigger] es[j]).0,
        decreases n - i,
    {
        keys.push(furnaces.key_at(i));
        i = i + 1;
    }
    let mut salvaged: Vec<ItemStack> = Vec::new();
    let mut i: usize = 0;
    while i < n
        invariant
            n == es.len(),
            i <= n,
            sorted_keys(es),
            m0 == seq_map(es),
            keys@.len() == n,
            forall|j: int| 0 <= j < n ==> keys@[j] == (#[trigger] es[j]).0,
            forall|x: i32, y: i32, z: i32| block_at.requires((x, y, z)),
            furnaces.wf(),
            forall|p: BlockPos| #[trigger]
                furnaces@.contains_key(p) ==> m0.contains_key(p) && furnaces@[p] == m0[p],
            forall|j: int| i <= j < n ==> furnaces@.contains_key(#[trigger] es[j].0),
            forall|p: BlockPos| #[trigger]
                m0.contains_key(p) && !furnaces@.contains_key(p) ==> in_region(p, lo, hi) && answered_other(
                    block_at,
                    p,
                ),
            forall|j: int|
                0 <= j < i && in_region(#[trigger] es[j].0, lo, hi) && furnaces@.contains_key(es[j].0)
                    ==> answered_furnace(block_at, es[j].0),
            salvaged@ == salvage_of(es.take(i as int), furnaces@),
        decreases n - i,
    {
        let key = keys[i];
        let ghost before = furnaces@;
        proof {
            lemma_seq_map_at(es, i as int);
        }
        let inside = lo.0 <= key.0 && key.0 <= hi.0 && lo.1 <= key.1 && key.1 <= hi.1 && lo.2 <= key.2
            && key.2 <= hi.2;
        if inside {
            let b = block_at(key.0, key.1, key.2);
            if b.0 != FURNACE {
                let removed = furnaces.remove(&key);
                proof {
                    assert forall|j: int| 0 <= j < i implies (before.contains_key(
                        #[trigger] es.take(i as int)[j].0,
                    ) <==> furnaces@.contains_key(es.take(i as int)[j].0)) by {
                        assert(es.take(i as int)[j] == es[j]);
                        if es[j].0 == key {
                            lemma_key_unique(es, j, i as int);
                        }
                    }
                    lemma_salvage_agrees(es.take(i as int), before, furnaces@);
                    assert(es.take(i + 1).drop_last() =~= es.take(i as int));
                    assert forall|j: int| i + 1 <= j < n implies furnaces@.contains_key(
                        #[trigger] es[j].0,
                    ) by {
                        if es[j].0 == key {
                            lemma_key_unique(es, j, i as int);
                        }
                    }
                    assert forall|j: int|
                        0 <= j < i + 1 && in_region(#[trigger] es[j].0, lo, hi) && furnaces@.contains_key(
                            es[j].0,
                        ) implies answered_furnace(block_at, es[j].0) by {
                        if j == i {
                            assert(!furnaces@.contains_key(key));
                        }
                    }
                    assert(answered_other(block_at, key)) by {
                        assert(block_at.ensures((key.0, key.1, key.2), b));
                    }
                }
                if let Some(c) = removed {
                    push_stacks(&mut salvaged, &c.slots);
                }
            } else {
                proof {
                    assert(es.take(i + 1).drop_last() =~= es.take(i as int));
                    assert(b == BlockId(FURNACE));
                }
            }
        } else {
            proof {
                assert(es.take(i + 1).drop_last() =~= es.take(i as int));
            }
        }
        i = i + 1;
    }
    proof {
        assert(es.take(n as int) =~= es);
        assert forall|p: BlockPos| #[trigger]
            m0.contains_key(p) && in_region(p, lo, hi) implies (furnaces@.contains_key(p)
            ==> answered_furnace(block_at, p)) by {
            let j = index_of_key(es, p);
            assert(es[j].0 == p);
        }
    }
    salvaged
}

} // verus!
