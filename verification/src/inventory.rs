//! The player's carried items: a 9-slot hotbar plus a 27-slot main grid.
//!
//! Slot indices are flat, `0..36`: `0..9` is the hotbar, `9..36` the main
//! grid. An empty slot is `None`, never a stack of zero.
use vstd::prelude::*;
use crate::item::{max_durability_of, max_stack_of, tool_of, ItemId};

verus! {

/// Hotbar slots, mapped to number keys 1-9.
pub const HOTBAR_SIZE: usize = 9;
/// Main inventory slots.
pub const MAIN_SIZE: usize = 27;
/// Total addressable slots.
pub const SLOT_COUNT: usize = 36;
/// Largest stack of anything stackable.
pub const STACK_LIMIT: u8 = 64;

/// One occupied slot.
#[derive(Copy, Clone, PartialEq, Eq, Structural, Debug)]
pub struct ItemStack {
    pub item: ItemId,
    pub count: u8,
    /// Remaining uses. Meaningful only for tools; 0 otherwise.
    pub durability: u16,
}

// --- stack arithmetic --------------------------------------------------------

/// `count` clamped into `1..=max`.
pub open spec fn clamp_count(count: u8, max: u8) -> u8 {
    if count < 1 {
        1
    } else if count > max {
        max
    } else {
        count
    }
}

/// The stack `ItemStack::new` builds: count clamped into `1..=max_stack`,
/// full durability.
pub open spec fn new_stack(item: ItemId, count: u8) -> ItemStack {
    ItemStack {
        item,
        count: clamp_count(count, max_stack_of(item.0)),
        durability: max_durability_of(item.0),
    }
}

pub open spec fn is_tool_stack(s: ItemStack) -> bool {
    tool_of(s.item.0) is Some
}

/// Whether `b` can be poured into `a`: same item, neither a tool.
pub open spec fn stacks_with_spec(a: ItemStack, b: ItemStack) -> bool {
    a.item == b.item && !is_tool_stack(a) && !is_tool_stack(b)
}

pub open spec fn is_full_spec(s: ItemStack) -> bool {
    s.count >= max_stack_of(s.item.0)
}

/// Room left in a stack.
pub open spec fn space_spec(s: ItemStack) -> u8 {
    if s.count >= max_stack_of(s.item.0) {
        0
    } else {
        (max_stack_of(s.item.0) - s.count) as u8
    }
}

pub open spec fn min_u8(a: u8, b: u8) -> u8 {
    if a <= b {
        a
    } else {
        b
    }
}

/// Pour `src` into `dst`: the new `dst` and whatever did not fit.
pub open spec fn merge_spec(dst: ItemStack, src: ItemStack) -> (ItemStack, Option<ItemStack>) {
    if !stacks_with_spec(dst, src) {
        (dst, Some(src))
    } else {
        let moved = min_u8(space_spec(dst), src.count);
        let d = ItemStack { count: (dst.count + moved) as u8, ..dst };
        let rest = (src.count - moved) as u8;
        (d, if rest == 0 {
            None
        } else {
            Some(ItemStack { count: rest, ..src })
        })
    }
}

/// How many items a slot holds of `item`.
pub open spec fn slot_count_of(s: Option<ItemStack>, item: ItemId) -> nat {
    match s {
        Some(st) => if st.item == item {
            st.count as nat
        } else {
            0
        },
        None => 0,
    }
}


impl ItemStack {
    /// A stack of `count` items, clamped to what fits. Tools come out at full
    /// durability.
    pub fn new(item: ItemId, count: u8) -> (r: ItemStack)
        ensures
            r == new_stack(item, count),
    {
        let max = item.max_stack();
        let c = if count < 1 {
            1
        } else if count > max {
            max
        } else {
            count
        };
        ItemStack { item, count: c, durability: item.max_durability() }
    }

    /// A single item. The usual way to make a tool.
    pub fn one(item: ItemId) -> (r: ItemStack)
        ensures
            r == (ItemStack { item, count: 1, durability: max_durability_of(item.0) }),
    {
        ItemStack::new(item, 1)
    }

    /// A tool with partial wear.
    pub fn worn(item: ItemId, durability: u16) -> (r: ItemStack)
        ensures
            r.item == item,
            r.count == 1,
            r.durability == (if durability <= max_durability_of(item.0) {
                durability
            } else {
                max_durability_of(item.0)
            }),
    {
        let max = item.max_durability();
        ItemStack { item, count: 1, durability: if durability <= max { durability } else { max } }
    }

    pub fn is_tool(self) -> (r: bool)
        ensures
            r == is_tool_stack(self),
    {
        self.item.is_tool()
    }

    pub fn max_stack(self) -> (r: u8)
        ensures
            r == max_stack_of(self.item.0),
    {
        self.item.max_stack()
    }

    pub fn is_full(self) -> (r: bool)
        ensures
            r == is_full_spec(self),
    {
        self.count >= self.max_stack()
    }

    /// Room left in this stack.
    pub fn space(self) -> (r: u8)
        ensures
            r == space_spec(self),
    {
        let max = self.max_stack();
        if self.count >= max {
            0
        } else {
            max - self.count
        }
    }

    /// Whether `other` can be poured into this stack. Tools never stack.
    pub fn stacks_with(self, other: ItemStack) -> (r: bool)
        ensures
            r == stacks_with_spec(self, other),
    {
        self.item == other.item && !self.is_tool() && !other.is_tool()
    }

    /// Pour `other` in. Returns whatever did not fit.
    pub fn merge(&mut self, other: ItemStack) -> (r: Option<ItemStack>)
        ensures
            (*final(self), r) == merge_spec(*old(self), other),
    {
        if !self.stacks_with(other) {
            return Some(other);
        }
        let space = self.space();
        let moved = if space <= other.count {
            space
        } else {
            other.count
        };
        self.count = self.count + moved;
        let rest = other.count - moved;
        if rest == 0 {
            None
        } else {
            Some(ItemStack { count: rest, ..other })
        }
    }

    /// Take `amount` items off this stack. `None`, and no change, if `amount`
    /// is 0 or would empty the stack.
    pub fn split(&mut self, amount: u8) -> (r: Option<ItemStack>)
        ensures
            (amount == 0 || amount >= old(self).count) ==> r is None && *final(self) == *old(self),
            (amount > 0 && amount < old(self).count) ==> r == Some(
                ItemStack { count: amount, ..*old(self) },
            ) && *final(self) == (ItemStack { count: (old(self).count - amount) as u8, ..*old(self) }),
    {
        if amount == 0 || amount >= self.count {
            return None;
        }
        self.count = self.count - amount;
        Some(ItemStack { item: self.item, count: amount, durability: self.durability })
    }

    /// Take the smaller half, leaving the larger.
    pub fn split_half(&mut self) -> (r: Option<ItemStack>)
        ensures
            old(self).count < 2 ==> r is None && *final(self) == *old(self),
            old(self).count >= 2 ==> r == Some(ItemStack { count: (old(self).count / 2) as u8, ..*old(self) })
                && *final(self) == (ItemStack {
                count: (old(self).count - old(self).count / 2) as u8,
                ..*old(self)
            }),
    {
        let half = self.count / 2;
        self.split(half)
    }

    /// Spend `amount` durability. Returns true if the tool broke. Non-tools
    /// are untouched.
    pub fn damage(&mut self, amount: u16) -> (r: bool)
        ensures
            !is_tool_stack(*old(self)) ==> !r && *final(self) == *old(self),
            is_tool_stack(*old(self)) ==> *final(self) == (ItemStack {
                durability: (if old(self).durability > amount {
                    old(self).durability - amount
                } else {
                    0
                }) as u16,
                ..*old(self)
            }) && r == (final(self).durability == 0),
    {
        if !self.is_tool() {
            return false;
        }
        self.durability = if self.durability > amount {
            self.durability - amount
        } else {
            0
        };
        self.durability == 0
    }
}

// --- slot runs -----------------------------------------------------------------

/// Count of `item` in slots `lo..hi`.
pub open spec fn count_range(slots: Seq<Option<ItemStack>>, lo: int, hi: int, item: ItemId) -> nat
    decreases hi - lo,
{
    if hi <= lo {
        0
    } else {
        count_range(slots, lo, hi - 1, item) + slot_count_of(slots[hi - 1], item)
    }
}

/// Total count of `item` across a run of slots.
pub open spec fn count_in(slots: Seq<Option<ItemStack>>, item: ItemId) -> nat {
    count_range(slots, 0, slots.len() as int, item)
}

/// First pass of adding a stack: top up partial stacks of the same item, in
/// slot order from `i`. Gives the new slots and whatever is still left.
pub open spec fn top_up(slots: Seq<Option<ItemStack>>, i: int, rest: ItemStack) -> (Seq<
    Option<ItemStack>,
>, Option<ItemStack>)
    decreases slots.len() - i,
{
    if i < 0 || i >= slots.len() {
        (slots, Some(rest))
    } else {
        match slots[i] {
            Some(e) => if stacks_with_spec(e, rest) && !is_full_spec(e) {
                let (e2, left) = merge_spec(e, rest);
                let s2 = slots.update(i, Some(e2));
                proof {
                    assert(s2.len() == slots.len());
                }
                match left {
                    None => (s2, None),
                    Some(l) => top_up(s2, i + 1, l),
                }
            } else {
                top_up(slots, i + 1, rest)
            },
            None => top_up(slots, i + 1, rest),
        }
    }
}

/// Second pass of adding a stack: fill empty slots in order from `i`, at
/// most one stack limit per slot.
pub open spec fn fill_empty(slots: Seq<Option<ItemStack>>, i: int, rest: ItemStack) -> (Seq<
    Option<ItemStack>,
>, Option<ItemStack>)
    decreases slots.len() - i,
{
    if i < 0 || i >= slots.len() {
        (slots, Some(rest))
    } else {
        match slots[i] {
            Some(_) => fill_empty(slots, i + 1, rest),
            None => {
                let take = min_u8(rest.count, max_stack_of(rest.item.0));
                let s2 = slots.update(i, Some(ItemStack { count: take, ..rest }));
                proof {
                    assert(s2.len() == slots.len());
                }
                let left = (rest.count - take) as u8;
                if left == 0 {
                    (s2, None)
                } else {
                    fill_empty(s2, i + 1, ItemStack { count: left, ..rest })
                }
            },
        }
    }
}

/// Adding a stack: top up matching partial stacks (never for tools), then
/// fill empty slots. Gives the new slots and what did not fit.
pub open spec fn add_spec(slots: Seq<Option<ItemStack>>, stack: ItemStack) -> (Seq<
    Option<ItemStack>,
>, Option<ItemStack>) {
    if stack.count == 0 {
        (slots, None)
    } else if is_tool_stack(stack) {
        fill_empty(slots, 0, stack)
    } else {
        let (s1, r1) = top_up(slots, 0, stack);
        match r1 {
            None => (s1, None),
            Some(r) => fill_empty(s1, 0, r),
        }
    }
}

/// Removing up to `left` of `item`, draining slots in order from `i`. Gives
/// the new slots and how many could not be removed.
pub open spec fn remove_from(slots: Seq<Option<ItemStack>>, i: int, item: ItemId, left: nat) -> (Seq<
    Option<ItemStack>,
>, nat)
    decreases slots.len() - i,
{
    if i < 0 || i >= slots.len() || left == 0 {
        (slots, left)
    } else {
        match slots[i] {
            Some(st) => if st.item == item {
                let take: nat = if (st.count as nat) < left {
                    st.count as nat
                } else {
                    left
                };
                let c = (st.count - take) as u8;
                let s2 = slots.update(
                    i,
                    if c == 0 {
                        None
                    } else {
                        Some(ItemStack { count: c, ..st })
                    },
                );
                proof {
                    assert(s2.len() == slots.len());
                }
                remove_from(s2, i + 1, item, (left - take) as nat)
            } else {
                remove_from(slots, i + 1, item, left)
            },
            None => remove_from(slots, i + 1, item, left),
        }
    }
}

/// Adding `left` fresh items of `item`, one stack limit at a time. Gives the
/// new slots and how many did not fit.
pub open spec fn add_item_spec(slots: Seq<Option<ItemStack>>, item: ItemId, left: nat) -> (Seq<
    Option<ItemStack>,
>, nat)
    decreases left,
{
    if left == 0 {
        (slots, 0)
    } else {
        let per = max_stack_of(item.0) as nat;
        let chunk: nat = if left < per {
            left
        } else {
            per
        };
        let stack = ItemStack { item, count: chunk as u8, durability: max_durability_of(item.0) };
        let (s1, r) = add_spec(slots, stack);
        match r {
            None => add_item_spec(s1, item, (left - chunk) as nat),
            Some(leftover) => (s1, (left - (chunk - leftover.count)) as nat),
        }
    }
}

/// The occupied slots, in slot order.
pub open spec fn occupied(slots: Seq<Option<ItemStack>>) -> Seq<ItemStack>
    decreases slots.len(),
{
    if slots.len() == 0 {
        Seq::empty()
    } else {
        match slots.last() {
            Some(s) => occupied(slots.drop_last()).push(s),
            None => occupied(slots.drop_last()),
        }
    }
}

/// Index of the first empty slot at or after `i`.
pub open spec fn first_empty_from(slots: Seq<Option<ItemStack>>, i: int) -> Option<int>
    decreases slots.len() - i,
{
    if i < 0 || i >= slots.len() {
        None
    } else if slots[i] is None {
        Some(i)
    } else {
        first_empty_from(slots, i + 1)
    }
}


/// Dragging `from` onto `to`: merge if they stack, otherwise swap. Equal or
/// out-of-range slots, or an empty source, change nothing.
pub open spec fn move_spec(slots: Seq<Option<ItemStack>>, from: int, to: int) -> Seq<Option<ItemStack>> {
    if from == to || !(0 <= from < 36) || !(0 <= to < 36) {
        slots
    } else {
        match slots[from] {
            None => slots,
            Some(src) => match slots[to] {
                None => slots.update(from, None).update(to, Some(src)),
                Some(dst) => if stacks_with_spec(dst, src) {
                    let (d2, left) = merge_spec(dst, src);
                    slots.update(to, Some(d2)).update(from, left)
                } else {
                    slots.update(to, Some(src)).update(from, Some(dst))
                },
            },
        }
    }
}

/// Merging `from` into `to` without swapping, and whether anything moved.
pub open spec fn merge_stacks_spec(slots: Seq<Option<ItemStack>>, from: int, to: int) -> (Seq<
    Option<ItemStack>,
>, bool) {
    if from == to || !(0 <= from < 36) || !(0 <= to < 36) {
        (slots, false)
    } else {
        match (slots[from], slots[to]) {
            (Some(src), Some(dst)) => if !stacks_with_spec(dst, src) || is_full_spec(dst) {
                (slots, false)
            } else {
                let (d2, left) = merge_spec(dst, src);
                (slots.update(to, Some(d2)).update(from, left), true)
            },
            _ => (slots, false),
        }
    }
}

/// Splitting half of `from` into `to`, and whether anything moved.
pub open spec fn split_stack_spec(slots: Seq<Option<ItemStack>>, from: int, to: int) -> (Seq<
    Option<ItemStack>,
>, bool) {
    if from == to || !(0 <= from < 36) || !(0 <= to < 36) {
        (slots, false)
    } else {
        match slots[from] {
            None => (slots, false),
            Some(src) => if is_tool_stack(src) || src.count < 2 {
                (slots, false)
            } else {
                let half = ItemStack { count: (src.count / 2) as u8, ..src };
                let kept = ItemStack { count: (src.count - src.count / 2) as u8, ..src };
                match slots[to] {
                    None => (slots.update(from, Some(kept)).update(to, Some(half)), true),
                    Some(dst) => if stacks_with_spec(dst, half) && !is_full_spec(dst) {
                        let (d2, left) = merge_spec(dst, half);
                        let back = match left {
                            Some(b) => b.count,
                            None => 0,
                        };
                        (
                            slots.update(
                                from,
                                Some(ItemStack { count: (kept.count + back) as u8, ..kept }),
                            ).update(to, Some(d2)),
                            true,
                        )
                    } else {
                        (slots, false)
                    },
                }
            },
        }
    }
}

/// Spending durability on the tool in slot `index`, and whether it broke.
pub open spec fn damage_slot_spec(slots: Seq<Option<ItemStack>>, index: int, amount: u16) -> (Seq<
    Option<ItemStack>,
>, bool) {
    if !(0 <= index < 36) {
        (slots, false)
    } else {
        match slots[index] {
            None => (slots, false),
            Some(st) => if !is_tool_stack(st) {
                (slots, false)
            } else {
                let d = (if st.durability > amount {
                    st.durability - amount
                } else {
                    0
                }) as u16;
                if d == 0 {
                    (slots.update(index, None), true)
                } else {
                    (slots.update(index, Some(ItemStack { durability: d, ..st })), false)
                }
            },
        }
    }
}

// --- counting lemmas -----------------------------------------------------------

/// Counting a run only looks at the slots in it.
pub(crate) proof fn lemma_count_range_frame(
    s1: Seq<Option<ItemStack>>,
    s2: Seq<Option<ItemStack>>,
    lo: int,
    hi: int,
    item: ItemId,
)
    requires
        forall|j: int| lo <= j < hi ==> s1[j] == s2[j],
    ensures
        count_range(s1, lo, hi, item) == count_range(s2, lo, hi, item),
    decreases hi - lo,
{
    if hi > lo {
        lemma_count_range_frame(s1, s2, lo, hi - 1, item);
    }
}

/// A run splits off its first slot.
proof fn lemma_count_range_first(s: Seq<Option<ItemStack>>, lo: int, hi: int, item: ItemId)
    requires
        lo < hi,
    ensures
        count_range(s, lo, hi, item) == slot_count_of(s[lo], item) + count_range(
            s,
            lo + 1,
            hi,
            item,
        ),
    decreases hi - lo,
{
    if hi - 1 > lo {
        lemma_count_range_first(s, lo, hi - 1, item);
    } else {
        assert(count_range(s, lo, hi - 1, item) == 0);
        assert(count_range(s, lo + 1, hi, item) == 0);
    }
}

/// Replacing one slot changes the count by exactly that slot's difference.
proof fn lemma_count_update(
    s: Seq<Option<ItemStack>>,
    i: int,
    v: Option<ItemStack>,
    item: ItemId,
    hi: int,
)
    requires
        0 <= i < s.len(),
        0 <= hi <= s.len(),
    ensures
        count_range(s.update(i, v), 0, hi, item) + (if i < hi {
            slot_count_of(s[i], item)
        } else {
            0
        }) == count_range(s, 0, hi, item) + (if i < hi {
            slot_count_of(v, item)
        } else {
            0
        }),
    decreases hi,
{
    if hi > 0 {
        lemma_count_update(s, i, v, item, hi - 1);
    }
}

/// Whole-inventory form of [`lemma_count_update`].
proof fn lemma_count_in_update(s: Seq<Option<ItemStack>>, i: int, v: Option<ItemStack>, item: ItemId)
    requires
        0 <= i < s.len(),
    ensures
        count_in(s.update(i, v), item) + slot_count_of(s[i], item) == count_in(s, item)
            + slot_count_of(v, item),
{
    lemma_count_update(s, i, v, item, s.len() as int);
}

/// Merging two stacks neither creates nor destroys items.
pub(crate) proof fn lemma_merge_conserves(dst: ItemStack, src: ItemStack, x: ItemId)
    ensures
        slot_count_of(Some(merge_spec(dst, src).0), x) + slot_count_of(merge_spec(dst, src).1, x)
            == slot_count_of(Some(dst), x) + slot_count_of(Some(src), x),
        merge_spec(dst, src).0.item == dst.item,
        match merge_spec(dst, src).1 {
            Some(l) => l.item == src.item && l.count <= src.count && l.count > 0 || l == src,
            None => true,
        },
{
}

/// The top-up pass conserves every item, and what is left is a piece of
/// the stack being added.
proof fn lemma_top_up(slots: Seq<Option<ItemStack>>, i: int, rest: ItemStack, x: ItemId)
    requires
        0 <= i,
    ensures
        top_up(slots, i, rest).0.len() == slots.len(),
        count_in(top_up(slots, i, rest).0, x) + slot_count_of(top_up(slots, i, rest).1, x)
            == count_in(slots, x) + slot_count_of(Some(rest), x),
        match top_up(slots, i, rest).1 {
            Some(l) => l.item == rest.item && l.durability == rest.durability && l.count
                <= rest.count,
            None => true,
        },
    decreases slots.len() - i,
{
    if i < slots.len() {
        match slots[i] {
            Some(e) => {
                if stacks_with_spec(e, rest) && !is_full_spec(e) {
                    let (e2, left) = merge_spec(e, rest);
                    let s2 = slots.update(i, Some(e2));
                    lemma_count_in_update(slots, i, Some(e2), x);
                    lemma_merge_conserves(e, rest, x);
                    match left {
                        None => {},
                        Some(l) => {
                            lemma_top_up(s2, i + 1, l, x);
                        },
                    }
                } else {
                    lemma_top_up(slots, i + 1, rest, x);
                }
            },
            None => {
                lemma_top_up(slots, i + 1, rest, x);
            },
        }
    }
}

/// The fill pass conserves every item, and what is left is a piece of the
/// stack being added.
proof fn lemma_fill_empty(slots: Seq<Option<ItemStack>>, i: int, rest: ItemStack, x: ItemId)
    requires
        0 <= i,
    ensures
        fill_empty(slots, i, rest).0.len() == slots.len(),
        count_in(fill_empty(slots, i, rest).0, x) + slot_count_of(fill_empty(slots, i, rest).1, x)
            == count_in(slots, x) + slot_count_of(Some(rest), x),
        match fill_empty(slots, i, rest).1 {
            Some(l) => l.item == rest.item && l.durability == rest.durability && l.count
                <= rest.count,
            None => true,
        },
    decreases slots.len() - i,
{
    if i < slots.len() {
        match slots[i] {
            Some(_) => {
                lemma_fill_empty(slots, i + 1, rest, x);
            },
            None => {
                let take = min_u8(rest.count, max_stack_of(rest.item.0));
                let v = Some(ItemStack { count: take, ..rest });
                let s2 = slots.update(i, v);
                lemma_count_in_update(slots, i, v, x);
                let left = (rest.count - take) as u8;
                if left != 0 {
                    lemma_fill_empty(s2, i + 1, ItemStack { count: left, ..rest }, x);
                }
            },
        }
    }
}

/// Adding a stack conserves items: what lands in the inventory plus what is
/// handed back is exactly what was there plus what was added, for every item;
/// the leftover is a piece of the added stack.
pub proof fn lemma_add_conserves(slots: Seq<Option<ItemStack>>, stack: ItemStack, x: ItemId)
    requires
        stack.count > 0,
    ensures
        add_spec(slots, stack).0.len() == slots.len(),
        count_in(add_spec(slots, stack).0, x) + slot_count_of(add_spec(slots, stack).1, x)
            == count_in(slots, x) + slot_count_of(Some(stack), x),
        match add_spec(slots, stack).1 {
            Some(l) => l.item == stack.item && l.durability == stack.durability && l.count
                <= stack.count,
            None => true,
        },
{
    if is_tool_stack(stack) {
        lemma_fill_empty(slots, 0, stack, x);
    } else {
        lemma_top_up(slots, 0, stack, x);
        let (s1, r1) = top_up(slots, 0, stack);
        match r1 {
            None => {},
            Some(r) => {
                lemma_fill_empty(s1, 0, r, x);
            },
        }
    }
}

/// A slot holds a stack that `stack` can be poured into.
pub open spec fn pours_into(slot: Option<ItemStack>, stack: ItemStack) -> bool {
    match slot {
        Some(e) => stacks_with_spec(e, stack),
        None => false,
    }
}

/// A slot holds a full stack.
pub open spec fn full_slot(slot: Option<ItemStack>) -> bool {
    match slot {
        Some(f) => is_full_spec(f),
        None => false,
    }
}

/// The top-up pass only changes occupied slots, never those before `i`, and
/// when something is still left over it has filled every slot from `i` on
/// that held a stack of the same item.
proof fn lemma_top_up_fills_partials(slots: Seq<Option<ItemStack>>, i: int, rest: ItemStack)
    requires
        0 <= i,
    ensures
        top_up(slots, i, rest).0.len() == slots.len(),
        forall|j: int|
            0 <= j < slots.len() ==> (#[trigger] top_up(slots, i, rest).0[j] is None <==> slots[j] is None),
        forall|j: int| 0 <= j < i && j < slots.len() ==> #[trigger] top_up(slots, i, rest).0[j] == slots[j],
        top_up(slots, i, rest).1 is Some ==> forall|j: int|
            i <= j < slots.len() && pours_into(#[trigger] slots[j], rest) ==> full_slot(
                top_up(slots, i, rest).0[j]),
    decreases slots.len() - i,
{
    if i < slots.len() {
        match slots[i] {
            Some(e) => {
                if stacks_with_spec(e, rest) && !is_full_spec(e) {
                    let (e2, left) = merge_spec(e, rest);
                    let s2 = slots.update(i, Some(e2));
                    match left {
                        None => {},
                        Some(l) => {
                            lemma_top_up_fills_partials(s2, i + 1, l);
                            assert(is_full_spec(e2));
                            let out = top_up(slots, i, rest);
                            assert(out == top_up(s2, i + 1, l));
                            assert(out.0[i] == s2[i]);
                            if out.1 is Some {
                                assert forall|j: int|
                                    i <= j < slots.len() && pours_into(#[trigger] slots[j], rest)
                                        implies full_slot(out.0[j]) by {
                                    if j > i {
                                        assert(s2[j] == slots[j]);
                                        assert(l.item == rest.item);
                                        assert(pours_into(s2[j], l));
                                    } else {
                                        assert(s2[j] == Some(e2));
                                    }
                                }
                            }
                        },
                    }
                } else {
                    lemma_top_up_fills_partials(slots, i + 1, rest);
                }
            },
            None => {
                lemma_top_up_fills_partials(slots, i + 1, rest);
            },
        }
    }
}

/// The fill pass leaves every occupied slot as it was.
proof fn lemma_fill_empty_keeps_stacks(slots: Seq<Option<ItemStack>>, i: int, rest: ItemStack)
    requires
        0 <= i,
    ensures
        fill_empty(slots, i, rest).0.len() == slots.len(),
        forall|j: int|
            0 <= j < slots.len() && (#[trigger] slots[j]) is Some ==> fill_empty(slots, i, rest).0[j]
                == slots[j],
    decreases slots.len() - i,
{
    if i < slots.len() {
        match slots[i] {
            Some(_) => {
                lemma_fill_empty_keeps_stacks(slots, i + 1, rest);
            },
            None => {
                let take = min_u8(rest.count, max_stack_of(rest.item.0));
                let s2 = slots.update(i, Some(ItemStack { count: take, ..rest }));
                let left = (rest.count - take) as u8;
                if left != 0 {
                    lemma_fill_empty_keeps_stacks(s2, i + 1, ItemStack { count: left, ..rest });
                    assert forall|j: int|
                        0 <= j < slots.len() && (#[trigger] slots[j]) is Some implies fill_empty(
                            slots,
                            i,
                            rest,
                        ).0[j] == slots[j] by {
                        assert(s2[j] == slots[j]);
                    }
                }
            },
        }
    }
}

/// Adding tops up partial stacks before it touches an empty slot: whenever
/// the add puts anything into a slot that was empty, or hands anything back,
/// every slot that held a stack the added items pour into is full afterwards.
pub proof fn lemma_add_tops_up_before_filling(slots: Seq<Option<ItemStack>>, stack: ItemStack)
    ensures
        add_spec(slots, stack).0.len() == slots.len(),
        ({
            let (after, left) = add_spec(slots, stack);
            (left is Some || exists|j: int| 0 <= j < slots.len() && (#[trigger] slots[j]) is None && after[j] is Some)
                ==> forall|j: int|
                0 <= j < slots.len() && pours_into(#[trigger] slots[j], stack)
                    ==> full_slot(after[j])
        }),
{
    if stack.count == 0 {
    } else if is_tool_stack(stack) {
        lemma_fill_empty_keeps_stacks(slots, 0, stack);
    } else {
        lemma_top_up_fills_partials(slots, 0, stack);
        let (s1, r1) = top_up(slots, 0, stack);
        match r1 {
            None => {
                assert forall|j: int| 0 <= j < slots.len() && (#[trigger] slots[j]) is None implies s1[j] is None by {
                    assert(s1[j] is None <==> slots[j] is None);
                }
            },
            Some(r) => {
                lemma_fill_empty_keeps_stacks(s1, 0, r);
                let after = fill_empty(s1, 0, r).0;
                assert forall|j: int|
                    0 <= j < slots.len() && pours_into(#[trigger] slots[j], stack)
                        implies full_slot(after[j]) by {
                    assert(full_slot(s1[j]));
                    assert(s1[j] is Some);
                    assert(after[j] == s1[j]);
                }
            },
        }
    }
}

/// Draining conserves every other item, removes exactly what it reports,
/// and empties every later slot of `item` whenever it falls short.
proof fn lemma_remove_from(slots: Seq<Option<ItemStack>>, i: int, item: ItemId, left: nat, x: ItemId)
    requires
        0 <= i <= slots.len(),
    ensures
        remove_from(slots, i, item, left).0.len() == slots.len(),
        remove_from(slots, i, item, left).1 <= left,
        count_in(remove_from(slots, i, item, left).0, x) + (if x == item {
            left - remove_from(slots, i, item, left).1
        } else {
            0
        }) == count_in(slots, x),
        forall|j: int| 0 <= j < i ==> remove_from(slots, i, item, left).0[j] == slots[j],
        remove_from(slots, i, item, left).1 > 0 ==> count_range(
            remove_from(slots, i, item, left).0,
            i,
            slots.len() as int,
            item,
        ) == 0,
    decreases slots.len() - i,
{
    let n = slots.len() as int;
    if i >= n || left == 0 {
        if i >= n {
            assert(count_range(slots, i, n, item) == 0);
        }
    } else {
        let (s_out, l_out) = remove_from(slots, i, item, left);
        match slots[i] {
            Some(st) => {
                if st.item == item {
                    let take: nat = if (st.count as nat) < left {
                        st.count as nat
                    } else {
                        left
                    };
                    let c = (st.count - take) as u8;
                    let v = if c == 0 {
                        None
                    } else {
                        Some(ItemStack { count: c, ..st })
                    };
                    let s2 = slots.update(i, v);
                    lemma_count_in_update(slots, i, v, x);
                    lemma_remove_from(s2, i + 1, item, (left - take) as nat, x);
                    assert(remove_from(slots, i, item, left) == remove_from(
                        s2,
                        i + 1,
                        item,
                        (left - take) as nat,
                    ));
                    assert forall|j: int| 0 <= j < i implies s_out[j] == slots[j] by {
                        assert(s_out[j] == s2[j]);
                    }
                    if l_out > 0 {
                        assert(s_out[i] == s2[i]);
                        lemma_count_range_first(s_out, i, n, item);
                    }
                } else {
                    lemma_remove_from(slots, i + 1, item, left, x);
                    assert(remove_from(slots, i, item, left) == remove_from(slots, i + 1, item, left));
                    if l_out > 0 {
                        assert(s_out[i] == slots[i]);
                        lemma_count_range_first(s_out, i, n, item);
                    }
                }
            },
            None => {
                lemma_remove_from(slots, i + 1, item, left, x);
                assert(remove_from(slots, i, item, left) == remove_from(slots, i + 1, item, left));
                if l_out > 0 {
                    assert(s_out[i] == slots[i]);
                    lemma_count_range_first(s_out, i, n, item);
                }
            },
        }
    }
}

/// Removing reports exactly the smaller of what was asked and what was
/// there, takes exactly that much of `item`, and leaves every other item as
/// it was.
pub proof fn lemma_remove_exact(slots: Seq<Option<ItemStack>>, item: ItemId, count: nat, x: ItemId)
    ensures
        ({
            let (s2, left) = remove_from(slots, 0, item, count);
            let removed = count - left;
            &&& removed == (if count <= count_in(slots, item) {
                count
            } else {
                count_in(slots, item)
            })
            &&& count_in(s2, x) + (if x == item {
                removed
            } else {
                0
            }) == count_in(slots, x)
        }),
{
    lemma_remove_from(slots, 0, item, count, x);
    lemma_remove_from(slots, 0, item, count, item);
}

/// Adding `count` fresh items conserves items: what lands plus what is
/// reported as not fitting equals what was asked for, and no other item
/// changes.
pub proof fn lemma_add_item_conserves(slots: Seq<Option<ItemStack>>, item: ItemId, count: nat, x: ItemId)
    requires
        count <= u32::MAX,
    ensures
        add_item_spec(slots, item, count).0.len() == slots.len(),
        add_item_spec(slots, item, count).1 <= count,
        count_in(add_item_spec(slots, item, count).0, x) + (if x == item {
            add_item_spec(slots, item, count).1
        } else {
            0
        }) == count_in(slots, x) + (if x == item {
            count
        } else {
            0
        }),
    decreases count,
{
    if count > 0 {
        let per = max_stack_of(item.0) as nat;
        let chunk: nat = if count < per {
            count
        } else {
            per
        };
        let stack = ItemStack { item, count: chunk as u8, durability: max_durability_of(item.0) };
        lemma_add_conserves(slots, stack, x);
        let (s1, r) = add_spec(slots, stack);
        match r {
            None => {
                lemma_add_item_conserves(s1, item, (count - chunk) as nat, x);
            },
            Some(leftover) => {},
        }
    }
}

/// Dragging one slot onto another never creates or destroys items.
pub proof fn lemma_move_conserves(slots: Seq<Option<ItemStack>>, from: int, to: int, x: ItemId)
    requires
        slots.len() == 36,
    ensures
        count_in(move_spec(slots, from, to), x) == count_in(slots, x),
{
    if !(from == to || !(0 <= from < 36) || !(0 <= to < 36)) {
        match slots[from] {
            None => {},
            Some(src) => match slots[to] {
                None => {
                    let s1 = slots.update(from, None);
                    lemma_count_in_update(slots, from, None, x);
                    lemma_count_in_update(s1, to, Some(src), x);
                },
                Some(dst) => if stacks_with_spec(dst, src) {
                    let (d2, left) = merge_spec(dst, src);
                    let s1 = slots.update(to, Some(d2));
                    lemma_count_in_update(slots, to, Some(d2), x);
                    lemma_count_in_update(s1, from, left, x);
                    lemma_merge_conserves(dst, src, x);
                } else {
                    let s1 = slots.update(to, Some(src));
                    lemma_count_in_update(slots, to, Some(src), x);
                    lemma_count_in_update(s1, from, Some(dst), x);
                },
            },
        }
    }
}

/// Merging one slot into another never creates or destroys items.
pub proof fn lemma_merge_stacks_conserves(slots: Seq<Option<ItemStack>>, from: int, to: int, x: ItemId)
    requires
        slots.len() == 36,
    ensures
        count_in(merge_stacks_spec(slots, from, to).0, x) == count_in(slots, x),
{
    if !(from == to || !(0 <= from < 36) || !(0 <= to < 36)) {
        match (slots[from], slots[to]) {
            (Some(src), Some(dst)) => if !(!stacks_with_spec(dst, src) || is_full_spec(dst)) {
                let (d2, left) = merge_spec(dst, src);
                let s1 = slots.update(to, Some(d2));
                lemma_count_in_update(slots, to, Some(d2), x);
                lemma_count_in_update(s1, from, left, x);
                lemma_merge_conserves(dst, src, x);
            },
            _ => {},
        }
    }
}

/// Splitting a stack between two slots never creates or destroys items.
pub proof fn lemma_split_stack_conserves(slots: Seq<Option<ItemStack>>, from: int, to: int, x: ItemId)
    requires
        slots.len() == 36,
    ensures
        count_in(split_stack_spec(slots, from, to).0, x) == count_in(slots, x),
{
    if !(from == to || !(0 <= from < 36) || !(0 <= to < 36)) {
        match slots[from] {
            None => {},
            Some(src) => if !(is_tool_stack(src) || src.count < 2) {
                let half = ItemStack { count: (src.count / 2) as u8, ..src };
                let kept = ItemStack { count: (src.count - src.count / 2) as u8, ..src };
                match slots[to] {
                    None => {
                        let s1 = slots.update(from, Some(kept));
                        lemma_count_in_update(slots, from, Some(kept), x);
                        lemma_count_in_update(s1, to, Some(half), x);
                    },
                    Some(dst) => if stacks_with_spec(dst, half) && !is_full_spec(dst) {
                        let (d2, left) = merge_spec(dst, half);
                        let back = match left {
                            Some(b) => b.count,
                            None => 0,
                        };
                        let k2 = Some(ItemStack { count: (kept.count + back) as u8, ..kept });
                        let s1 = slots.update(from, k2);
                        lemma_count_in_update(slots, from, k2, x);
                        lemma_count_in_update(s1, to, Some(d2), x);
                        lemma_merge_conserves(dst, half, x);
                    },
                }
            },
        }
    }
}

/// The inventory's abstract contents.
pub struct InventoryView {
    pub slots: Seq<Option<ItemStack>>,
    pub selected: int,
}

/// The player's items.
#[derive(Copy, Clone, Debug)]
pub struct Inventory {
    slots: [Option<ItemStack>; 36],
    selected: usize,
}

impl View for Inventory {
    type V = InventoryView;

    closed spec fn view(&self) -> InventoryView {
        InventoryView { slots: self.slots@, selected: self.selected as int }
    }
}

impl Default for Inventory {
    fn default() -> (r: Inventory)
        ensures
            r@.selected == 0,
            r@.slots == Seq::new(36, |i: int| None::<ItemStack>),
    {
        Inventory::new()
    }
}

impl Inventory {
    /// Every inventory holds exactly [`SLOT_COUNT`] slots.
    pub proof fn lemma_slot_count(&self)
        ensures
            self@.slots.len() == SLOT_COUNT,
    {
    }

    pub fn new() -> (r: Inventory)
        ensures
            r@.selected == 0,
            r@.slots == Seq::new(36, |i: int| None::<ItemStack>),
    {
        let r = Inventory { slots: [None; 36], selected: 0 };
        assert(r.slots@ =~= Seq::new(36, |i: int| None::<ItemStack>));
        r
    }

    // --- raw slot access ----------------------------------------------------

    pub fn slots(&self) -> (r: &[Option<ItemStack>; 36])
        ensures
            r@ == self@.slots,
    {
        &self.slots
    }

    /// The stack in a slot; `None` for an empty or out-of-range slot.
    pub fn slot(&self, index: usize) -> (r: Option<ItemStack>)
        ensures
            r == (if index < 36 {
                self@.slots[index as int]
            } else {
                None::<ItemStack>
            }),
    {
        if index < 36 {
            self.slots[index]
        } else {
            None
        }
    }

    /// A mutable handle on an occupied slot's stack.
    pub fn slot_mut(&mut self, index: usize) -> (r: Option<&mut ItemStack>)
        ensures
            final(self)@.selected == old(self)@.selected,
            r is Some <==> index < 36 && old(self)@.slots[index as int] is Some,
            r is Some ==> *r.unwrap() == old(self)@.slots[index as int].unwrap()
                && final(self)@.slots == old(self)@.slots.update(
                index as int,
                Some(*final(r.unwrap())),
            ),
            r is None ==> final(self)@.slots == old(self)@.slots,
    {
        if index < 36 {
            let cell = &mut self.slots[index];
            cell.as_mut()
        } else {
            None
        }
    }

    /// Overwrite a slot wholesale. A zero-count stack empties the slot;
    /// out-of-range indices are ignored.
    pub fn set_slot(&mut self, index: usize, stack: Option<ItemStack>)
        ensures
            final(self)@.selected == old(self)@.selected,
            index < 36 ==> final(self)@.slots == old(self)@.slots.update(
                index as int,
                match stack {
                    Some(st) => if st.count > 0 {
                        Some(st)
                    } else {
                        None
                    },
                    None => None,
                },
            ),
            index >= 36 ==> final(self)@.slots == old(self)@.slots,
    {
        if index < 36 {
            self.slots[index] = match stack {
                Some(st) => if st.count > 0 {
                    Some(st)
                } else {
                    None
                },
                None => None,
            };
        }
    }

    /// Empty a slot and hand back what was in it.
    pub fn take_slot(&mut self, index: usize) -> (r: Option<ItemStack>)
        ensures
            final(self)@.selected == old(self)@.selected,
            index < 36 ==> r == old(self)@.slots[index as int] && final(self)@.slots == old(
                self,
            )@.slots.update(index as int, None),
            index >= 36 ==> r is None && final(self)@.slots == old(self)@.slots,
    {
        if index < 36 {
            let r = self.slots[index];
            self.slots[index] = None;
            r
        } else {
            None
        }
    }

    /// The hotbar, left to right.
    pub fn hotbar(&self) -> (r: &[Option<ItemStack>])
        ensures
            r@ == self@.slots.subrange(0, 9),
    {
        let all = self.slots.as_slice();
        &all[0..9]
    }

    /// The main grid, slots `9..36`.
    pub fn main(&self) -> (r: &[Option<ItemStack>])
        ensures
            r@ == self@.slots.subrange(9, 36),
    {
        let all = self.slots.as_slice();
        &all[9..36]
    }

    /// True when every slot is empty.
    pub fn is_empty(&self) -> (r: bool)
        ensures
            r == (forall|i: int| 0 <= i < 36 ==> self@.slots[i] is None),
    {
        let mut i: usize = 0;
        while i < 36
            invariant
                i <= 36,
                forall|j: int| 0 <= j < i ==> self.slots@[j] is None,
            decreases 36 - i,
        {
            if self.slots[i].is_some() {
                return false;
            }
            i = i + 1;
        }
        true
    }

    /// Index of the first empty slot, if any.
    pub fn first_empty(&self) -> (r: Option<usize>)
        ensures
            r == (match first_empty_from(self@.slots, 0) {
                Some(i) => Some(i as usize),
                None => None::<usize>,
            }),
    {
        let mut i: usize = 0;
        while i < 36
            invariant
                i <= 36,
                self.slots@.len() == 36,
                first_empty_from(self.slots@, i as int) == first_empty_from(self.slots@, 0),
            decreases 36 - i,
        {
            if self.slots[i].is_none() {
                return Some(i);
            }
            i = i + 1;
        }
        None
    }

    // --- selection ----------------------------------------------------------

    pub fn selected(&self) -> (r: usize)
        ensures
            r == self@.selected,
    {
        self.selected
    }

    /// Select a hotbar slot. Out-of-range indices are ignored.
    pub fn set_selected(&mut self, index: usize)
        ensures
            final(self)@.slots == old(self)@.slots,
            final(self)@.selected == (if index < HOTBAR_SIZE {
                index as int
            } else {
                old(self)@.selected
            }),
    {
        if index < HOTBAR_SIZE {
            self.selected = index;
        }
    }

    /// Scroll wheel: move the selection by `delta`, wrapping around the hotbar.
    /// The selection is always a hotbar slot (every way of setting it keeps
    /// it below [`HOTBAR_SIZE`]), and from one the move is plain wrapping.
    pub fn cycle_selection(&mut self, delta: i32)
        ensures
            final(self)@.slots == old(self)@.slots,
            final(self)@.selected == (old(self)@.selected % 9 + delta) % 9,
            0 <= final(self)@.selected < HOTBAR_SIZE,
            old(self)@.selected < HOTBAR_SIZE ==> final(self)@.selected == (old(self)@.selected + delta) % 9,
    {
        let cur = (self.selected % 9) as i64;
        let d = delta as i64;
        let m = (cur + d) % 9;
        let wrapped = if m < 0 {
            m + 9
        } else {
            m
        };
        self.selected = wrapped as usize;
    }

    pub fn selected_stack(&self) -> (r: Option<ItemStack>)
        ensures
            r == (if self@.selected < 36 {
                self@.slots[self@.selected]
            } else {
                None::<ItemStack>
            }),
    {
        self.slot(self.selected)
    }

    /// The held item, which is what mining and placing consult.
    pub fn selected_item(&self) -> (r: Option<ItemId>)
        ensures
            r == (if self@.selected < 36 {
                match self@.slots[self@.selected] {
                    Some(s) => Some(s.item),
                    None => None::<ItemId>,
                }
            } else {
                None::<ItemId>
            }),
    {
        match self.selected_stack() {
            Some(s) => Some(s.item),
            None => None,
        }
    }

    // --- bulk queries -------------------------------------------------------

    /// Total count of `item` across every slot.
    pub fn count(&self, item: ItemId) -> (r: u32)
        ensures
            r == count_in(self@.slots, item),
    {
        let mut total: u32 = 0;
        let mut i: usize = 0;
        while i < 36
            invariant
                i <= 36,
                self.slots@.len() == 36,
                total == count_range(self.slots@, 0, i as int, item),
                total <= 255 * i,
            decreases 36 - i,
        {
            match self.slots[i] {
                Some(st) => {
                    if st.item == item {
                        total = total + st.count as u32;
                    }
                },
                None => {},
            }
            i = i + 1;
        }
        total
    }

    /// Whether at least `count` of `item` are carried.
    pub fn has(&self, item: ItemId, count: u32) -> (r: bool)
        ensures
            r == (count_in(self@.slots, item) >= count),
    {
        self.count(item) >= count
    }

    // --- adding and removing ------------------------------------------------

    /// Insert a stack. Fills partial stacks of the same item first, then empty
    /// slots. Returns whatever did not fit.
    pub fn add(&mut self, stack: ItemStack) -> (r: Option<ItemStack>)
        ensures
            final(self)@.selected == old(self)@.selected,
            (final(self)@.slots, r) == add_spec(old(self)@.slots, stack),
            // Partial stacks of the same item are topped up before any empty
            // slot is used or anything is handed back.
            (r is Some || exists|j: int|
                0 <= j < old(self)@.slots.len() && (#[trigger] old(self)@.slots[j]) is None
                    && final(self)@.slots[j] is Some)
                ==> forall|j: int|
                0 <= j < old(self)@.slots.len() && pours_into(#[trigger] old(self)@.slots[j], stack) ==> full_slot(
                    final(self)@.slots[j],
                ),
    {
        proof {
            lemma_add_tops_up_before_filling(self@.slots, stack);
        }
        let ghost start = self.slots@;
        let mut rest = stack;
        if rest.count == 0 {
            return None;
        }
        if !rest.is_tool() {
            let mut i: usize = 0;
            while i < 36
                invariant
                    i <= 36,
                    self.slots@.len() == 36,
                    self.selected == old(self).selected,
                    !is_tool_stack(stack),
                    stack.count > 0,
                    rest.item == stack.item,
                    top_up(self.slots@, i as int, rest) == top_up(start, 0, stack),
                    start == old(self).slots@,
                decreases 36 - i,
            {
                match self.slots[i] {
                    Some(existing) => {
                        let mut e = existing;
                        if e.stacks_with(rest) && !e.is_full() {
                            let left = e.merge(rest);
                            self.slots[i] = Some(e);
                            match left {
                                None => {
                                    proof {
                                        lemma_add_tops_up_before_filling(old(self)@.slots, stack);
                                    }
                                    return None;
                                },
                                Some(l) => {
                                    rest = l;
                                },
                            }
                        }
                    },
                    None => {},
                }
                i = i + 1;
            }
        }
        let ghost mid = self.slots@;
        let ghost rest0 = rest;
        assert(if is_tool_stack(stack) {
            mid == start && rest0 == stack
        } else {
            top_up(start, 0, stack) == (mid, Some(rest0))
        });
        let mut j: usize = 0;
        while j < 36
            invariant
                j <= 36,
                self.slots@.len() == 36,
                self.selected == old(self).selected,
                stack.count > 0,
                fill_empty(self.slots@, j as int, rest) == fill_empty(mid, 0, rest0),
                add_spec(start, stack) == fill_empty(mid, 0, rest0),
                start == old(self).slots@,
            decreases 36 - j,
        {
            if self.slots[j].is_none() {
                let max = rest.max_stack();
                let take = if rest.count <= max {
                    rest.count
                } else {
                    max
                };
                self.slots[j] = Some(ItemStack { item: rest.item, count: take, durability: rest.durability });
                rest.count = rest.count - take;
                if rest.count == 0 {
                    proof {
                        lemma_add_tops_up_before_filling(old(self)@.slots, stack);
                    }
                    return None;
                }
            }
            j = j + 1;
        }
        Some(rest)
    }

    /// Insert `count` fresh items, spilling across as many stacks as needed.
    /// Returns how many did not fit.
    pub fn add_item(&mut self, item: ItemId, count: u32) -> (r: u32)
        ensures
            final(self)@.selected == old(self)@.selected,
            (final(self)@.slots, r as nat) == add_item_spec(old(self)@.slots, item, count as nat),
    {
        let per = item.max_stack() as u32;
        let mut left = count;
        while left > 0
            invariant
                per == max_stack_of(item.0),
                self.slots@.len() == 36,
                self.selected == old(self).selected,
                add_item_spec(self.slots@, item, left as nat) == add_item_spec(
                    old(self).slots@,
                    item,
                    count as nat,
                ),
            decreases left,
        {
            let chunk = if left < per {
                left
            } else {
                per
            };
            let stack = ItemStack::new(item, chunk as u8);
            proof {
                lemma_add_conserves(self.slots@, stack, item);
            }
            match self.add(stack) {
                None => {
                    left = left - chunk;
                },
                Some(leftover) => {
                    return left - (chunk - leftover.count as u32);
                },
            }
        }
        0
    }

    /// Remove up to `count` of `item`, draining slots in order. Returns how
    /// many were actually removed.
    pub fn remove(&mut self, item: ItemId, count: u32) -> (r: u32)
        ensures
            final(self)@.selected == old(self)@.selected,
            final(self)@.slots == remove_from(old(self)@.slots, 0, item, count as nat).0,
            r == count - remove_from(old(self)@.slots, 0, item, count as nat).1,
    {
        let mut left = count;
        let mut i: usize = 0;
        proof {
            lemma_remove_from(self.slots@, 0, item, count as nat, item);
        }
        while i < 36 && left > 0
            invariant
                i <= 36,
                self.slots@.len() == 36,
                self.selected == old(self).selected,
                left <= count,
                remove_from(self.slots@, i as int, item, left as nat) == remove_from(
                    old(self).slots@,
                    0,
                    item,
                    count as nat,
                ),
            decreases 36 - i,
        {
            match self.slots[i] {
                Some(stack) => {
                    if stack.item == item {
                        let take = if (stack.count as u32) < left {
                            stack.count
                        } else {
                            left as u8
                        };
                        let c = stack.count - take;
                        left = left - take as u32;
                        self.slots[i] = if c == 0 {
                            None
                        } else {
                            Some(ItemStack { count: c, ..stack })
                        };
                    }
                },
                None => {},
            }
            i = i + 1;
        }
        count - left
    }

    /// Take up to `count` items out of one slot, emptying it if it runs out.
    pub fn take_from_slot(&mut self, index: usize, count: u8) -> (r: Option<ItemStack>)
        ensures
            final(self)@.selected == old(self)@.selected,
            index >= 36 ==> r is None && final(self)@.slots == old(self)@.slots,
            index < 36 ==> match old(self)@.slots[index as int] {
                None => r is None && final(self)@.slots == old(self)@.slots,
                Some(st) => {
                    let take = min_u8(count, st.count);
                    if take == 0 {
                        r is None && final(self)@.slots == old(self)@.slots
                    } else {
                        r == Some(ItemStack { count: take, ..st }) && final(self)@.slots == old(
                            self,
                        )@.slots.update(
                            index as int,
                            if st.count == take {
                                None
                            } else {
                                Some(ItemStack { count: (st.count - take) as u8, ..st })
                            },
                        )
                    }
                },
            },
    {
        if index >= 36 {
            return None;
        }
        match self.slots[index] {
            None => None,
            Some(stack) => {
                let take = if count <= stack.count {
                    count
                } else {
                    stack.count
                };
                if take == 0 {
                    return None;
                }
                let out = ItemStack { item: stack.item, count: take, durability: stack.durability };
                let c = stack.count - take;
                self.slots[index] = if c == 0 {
                    None
                } else {
                    Some(ItemStack { count: c, ..stack })
                };
                Some(out)
            },
        }
    }

    // --- slot-to-slot manipulation -----------------------------------------

    /// Drag `from` onto `to`: merge if they stack, otherwise swap.
    pub fn move_stack(&mut self, from: usize, to: usize)
        ensures
            final(self)@.selected == old(self)@.selected,
            final(self)@.slots == move_spec(old(self)@.slots, from as int, to as int),
    {
        if from == to || from >= 36 || to >= 36 {
            return;
        }
        let src = match self.slots[from] {
            Some(s) => s,
            None => {
                return;
            },
        };
        self.slots[from] = None;
        match self.slots[to] {
            None => {
                self.slots[to] = Some(src);
            },
            Some(d) => {
                let mut dst = d;
                if dst.stacks_with(src) {
                    let leftover = dst.merge(src);
                    self.slots[to] = Some(dst);
                    self.slots[from] = leftover;
                } else {
                    self.slots[to] = Some(src);
                    self.slots[from] = Some(dst);
                }
            },
        }
    }

    /// Merge `from` into `to` without swapping. Returns true if anything
    /// moved; incompatible or full destinations leave both slots untouched.
    pub fn merge_stacks(&mut self, from: usize, to: usize) -> (r: bool)
        ensures
            final(self)@.selected == old(self)@.selected,
            (final(self)@.slots, r) == merge_stacks_spec(old(self)@.slots, from as int, to as int),
    {
        if from == to || from >= 36 || to >= 36 {
            return false;
        }
        match (self.slots[from], self.slots[to]) {
            (Some(src), Some(d)) => {
                let mut dst = d;
                if !dst.stacks_with(src) || dst.is_full() {
                    return false;
                }
                let leftover = dst.merge(src);
                self.slots[to] = Some(dst);
                self.slots[from] = leftover;
                true
            },
            _ => false,
        }
    }

    /// Split half of `from` into `to`, which must be empty or hold a matching
    /// stack with room. Whatever does not fit goes back. Returns true if
    /// anything moved.
    pub fn split_stack(&mut self, from: usize, to: usize) -> (r: bool)
        ensures
            final(self)@.selected == old(self)@.selected,
            (final(self)@.slots, r) == split_stack_spec(old(self)@.slots, from as int, to as int),
    {
        if from == to || from >= 36 || to >= 36 {
            return false;
        }
        let mut src = match self.slots[from] {
            Some(s) => s,
            None => {
                return false;
            },
        };
        if src.is_tool() {
            return false;
        }
        let half = match src.split_half() {
            Some(h) => h,
            None => {
                return false;
            },
        };
        match self.slots[to] {
            None => {
                self.slots[from] = Some(src);
                self.slots[to] = Some(half);
                true
            },
            Some(d) => {
                let mut dst = d;
                if dst.stacks_with(half) && !dst.is_full() {
                    let leftover = dst.merge(half);
                    match leftover {
                        Some(back) => {
                            src.count = src.count + back.count;
                        },
                        None => {},
                    }
                    self.slots[from] = Some(src);
                    self.slots[to] = Some(dst);
                    true
                } else {
                    false
                }
            },
        }
    }

    // --- durability ---------------------------------------------------------

    /// Spend durability on the tool in `index`. Returns true if it broke, in
    /// which case the slot has been emptied. Non-tools are untouched.
    pub fn damage_slot(&mut self, index: usize, amount: u16) -> (r: bool)
        ensures
            final(self)@.selected == old(self)@.selected,
            (final(self)@.slots, r) == damage_slot_spec(old(self)@.slots, index as int, amount),
    {
        if index >= 36 {
            return false;
        }
        match self.slots[index] {
            None => false,
            Some(st) => {
                let mut stack = st;
                if stack.damage(amount) {
                    self.slots[index] = None;
                    true
                } else {
                    self.slots[index] = Some(stack);
                    false
                }
            },
        }
    }

    /// Spend durability on the held tool. Returns true if it broke.
    pub fn damage_selected(&mut self, amount: u16) -> (r: bool)
        ensures
            final(self)@.selected == old(self)@.selected,
            (final(self)@.slots, r) == damage_slot_spec(old(self)@.slots, old(self)@.selected, amount),
    {
        let index = self.selected;
        self.damage_slot(index, amount)
    }

    // --- death --------------------------------------------------------------

    /// Empty the inventory and hand back everything that was in it, in slot
    /// order.
    pub fn drop_all(&mut self) -> (r: Vec<ItemStack>)
        ensures
            final(self)@.selected == old(self)@.selected,
            final(self)@.slots == Seq::new(36, |i: int| None::<ItemStack>),
            r@ == occupied(old(self)@.slots),
    {
        let mut out: Vec<ItemStack> = Vec::new();
        let mut i: usize = 0;
        while i < 36
            invariant
                i <= 36,
                self.slots@.len() == 36,
                self.selected == old(self).selected,
                out@ == occupied(old(self).slots@.subrange(0, i as int)),
                forall|j: int| 0 <= j < i ==> self.slots@[j] is None,
                forall|j: int| i <= j < 36 ==> self.slots@[j] == old(self).slots@[j],
            decreases 36 - i,
        {
            let ghost before = old(self).slots@.subrange(0, i as int);
            let ghost after = old(self).slots@.subrange(0, i as int + 1);
            assert(after.drop_last() =~= before);
            match self.slots[i] {
                Some(st) => {
                    out.push(st);
                },
                None => {},
            }
            self.slots[i] = None;
            i = i + 1;
        }
        assert(old(self).slots@.subrange(0, 36) =~= old(self).slots@);
        assert(self.slots@ =~= Seq::new(36, |i: int| None::<ItemStack>));
        out
    }
}

} // verus!
