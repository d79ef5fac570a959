//! The rules for moving a stack of items with the cursor.
//!
//! These take plain `&mut Option<ItemStack>` slots rather than reaching into
//! the inventory, so the fiddly rules -- split on right-click, merge only up
//! to the stack limit, never merge two tools -- stand on their own.
use vstd::prelude::*;
use crate::crafting::{consumed, craft, no_empty_stacks, resolve_spec};
use crate::block::BlockId;
use crate::item::{max_stack_of, places_of, ItemId};
use crate::inventory::{
    add_spec, count_in, count_range, is_full_spec, lemma_add_conserves, lemma_count_range_frame,
    lemma_merge_conserves, merge_spec, new_stack, occupied, slot_count_of, stacks_with_spec,
    Inventory, ItemStack,
};

verus! {

/// Which screen the game is showing.
#[derive(Copy, Clone, Debug, PartialEq, Eq)]
pub enum Ui {
    /// Startup menu shown before simulation begins.
    Title,
    Playing,
    /// The player's own 2x2 grid.
    Inventory,
    /// A crafting table: the full 3x3, which is what every tool needs.
    Table,
    /// A specific furnace block in the world.
    Furnace((i32, i32, i32)),
}

impl Ui {
    /// Whether this screen is an item panel over the world.
    pub fn is_panel(self) -> (r: bool)
        ensures
            r == (self is Inventory || self is Table || self is Furnace),
    {
        match self {
            Ui::Inventory | Ui::Table | Ui::Furnace(_) => true,
            _ => false,
        }
    }

    /// How many crafting cells this panel exposes. Tools are 3x3 recipes, so
    /// a 2x2 grid can only ever make planks, sticks, torches and the table.
    pub fn craft_cells(self) -> (r: usize)
        ensures
            r == (if self is Table {
                9usize
            } else {
                4usize
            }),
    {
        match self {
            Ui::Table => 9,
            _ => 4,
        }
    }
}


/// What the title screen's buttons do.
#[derive(Copy, Clone, Debug, PartialEq, Eq, Structural)]
pub enum TitleAction {
    Continue,
    NewWorld,
    Quit,
}

/// The two furnace slots a closing panel may pour items back into.
#[derive(Copy, Clone, Debug, PartialEq, Eq)]
pub struct FurnaceSlots {
    pub input: Option<ItemStack>,
    pub fuel: Option<ItemStack>,
}

/// One cursor click against a cell: the new carried stack and the new cell.
pub open spec fn swap_carried_spec(carried: Option<ItemStack>, cell: Option<ItemStack>, right: bool) -> (
    Option<ItemStack>,
    Option<ItemStack>,
) {
    match (carried, cell) {
        (None, Some(s)) => if right && s.count > 1 {
            let half = (s.count / 2) as u8;
            (Some(new_stack(s.item, half)), Some(new_stack(s.item, (s.count - half) as u8)))
        } else {
            (Some(s), None)
        },
        (Some(c), None) => if right && c.count > 1 {
            (Some(new_stack(c.item, (c.count - 1) as u8)), Some(new_stack(c.item, 1)))
        } else {
            (None, Some(c))
        },
        (Some(c), Some(s)) => if stacks_with_spec(s, c) && !is_full_spec(s) {
            let (s2, left) = merge_spec(s, c);
            (left, Some(s2))
        } else {
            (Some(s), Some(c))
        },
        (None, None) => (None, None),
    }
}

/// Pouring a stack into a cell: the new cell and whatever did not fit.
pub open spec fn merge_into_cell_spec(cell: Option<ItemStack>, stack: ItemStack) -> (
    Option<ItemStack>,
    Option<ItemStack>,
) {
    match cell {
        Some(e) => {
            let (e2, left) = merge_spec(e, stack);
            (Some(e2), left)
        },
        None => (Some(stack), None),
    }
}

/// A right click moves a single item or half a stack, never more: onto an
/// empty cell it puts down exactly one item and keeps the rest in hand; from a
/// cell into an empty hand it takes the smaller half and leaves the larger.
pub proof fn lemma_right_click_moves_one_or_half(carried: Option<ItemStack>, cell: Option<ItemStack>)
    ensures
        match (carried, cell) {
            (Some(c), None) => 1 < c.count <= max_stack_of(c.item.0) ==> ({
                let (hand, put) = swap_carried_spec(carried, cell, true);
                &&& put matches Some(d) && d.item == c.item && d.count == 1
                &&& hand matches Some(e) && e.item == c.item && e.count == c.count - 1
            }),
            (None, Some(s)) => 1 < s.count <= max_stack_of(s.item.0) ==> ({
                let (hand, left) = swap_carried_spec(carried, cell, true);
                &&& hand matches Some(h) && h.item == s.item && h.count == s.count / 2
                &&& left matches Some(k) && k.item == s.item && k.count == s.count - s.count / 2
            }),
            _ => true,
        },
{
}

/// Pick up, put down, merge, or split one stack against the carried one.
/// Right click takes half of a cell, or puts down a single item.
pub fn swap_carried(carried: &mut Option<ItemStack>, cell: &mut Option<ItemStack>, right: bool)
    ensures
        (*final(carried), *final(cell)) == swap_carried_spec(*old(carried), *old(cell), right),
        // Right click on an empty cell puts down exactly one item.
        ({
            match (*old(carried), *old(cell)) {
                (Some(c), None) => right && 1 < c.count <= max_stack_of(c.item.0) ==> (*final(cell)
                    matches Some(d) && d.item == c.item && d.count == 1) && (*final(carried) matches Some(
                    e,
                ) && e.item == c.item && e.count == c.count - 1),
                _ => true,
            }
        }),
        // Right click on a cell with an empty hand takes the smaller half.
        ({
            match (*old(carried), *old(cell)) {
                (None, Some(s)) => right && 1 < s.count <= max_stack_of(s.item.0) ==> (*final(carried)
                    matches Some(h) && h.item == s.item && h.count == s.count / 2) && (*final(cell)
                    matches Some(k) && k.item == s.item && k.count == s.count - s.count / 2),
                _ => true,
            }
        }),
{
    proof {
        lemma_right_click_moves_one_or_half(*old(carried), *old(cell));
    }
    let c0 = *carried;
    let s0 = *cell;
    *carried = None;
    *cell = None;
    match (c0, s0) {
        (None, Some(s)) => {
            if right && s.count > 1 {
                let half = s.count / 2;
                *carried = Some(ItemStack::new(s.item, half));
                *cell = Some(ItemStack::new(s.item, s.count - half));
            } else {
                *carried = Some(s);
            }
        },
        (Some(c), None) => {
            if right && c.count > 1 {
                *cell = Some(ItemStack::new(c.item, 1));
                *carried = Some(ItemStack::new(c.item, c.count - 1));
            } else {
                *cell = Some(c);
            }
        },
        (Some(c), Some(s0)) => {
            let mut s = s0;
            if s.stacks_with(c) && !s.is_full() {
                *carried = s.merge(c);
                *cell = Some(s);
            } else {
                *cell = Some(c);
                *carried = Some(s);
            }
        },
        (None, None) => {},
    }
}

/// Pour `stack` into a cell: merge into what is there, or fill an empty
/// cell. Returns whatever did not fit.
pub fn merge_into_cell(cell: &mut Option<ItemStack>, stack: ItemStack) -> (r: Option<ItemStack>)
    ensures
        (*final(cell), r) == merge_into_cell_spec(*old(cell), stack),
{
    match *cell {
        Some(e) => {
            let mut existing = e;
            let left = existing.merge(stack);
            *cell = Some(existing);
            left
        },
        None => {
            *cell = Some(stack);
            None
        },
    }
}

/// Storing an output into the inventory, then the cursor: the new slots
/// and carried stack, or `None` when neither can hold all of it.
pub open spec fn store_output_spec(slots: Seq<Option<ItemStack>>, carried: Option<ItemStack>, output: ItemStack) -> Option<
    (Seq<Option<ItemStack>>, Option<ItemStack>),
> {
    let (s1, rest) = add_spec(slots, output);
    match rest {
        None => Some((s1, carried)),
        Some(r) => {
            let (c2, left) = merge_into_cell_spec(carried, r);
            if left is Some {
                None
            } else {
                Some((s1, c2))
            }
        },
    }
}

/// Store an output transactionally. If neither the inventory nor the cursor
/// can hold it, leave both untouched so the output is not consumed.
pub fn store_output(inventory: &mut Inventory, carried: &mut Option<ItemStack>, output: ItemStack) -> (r: bool)
    ensures
        final(inventory)@.selected == old(inventory)@.selected,
        match store_output_spec(old(inventory)@.slots, *old(carried), output) {
            Some((s, c)) => r && final(inventory)@.slots == s && *final(carried) == c,
            None => !r && final(inventory)@ == old(inventory)@ && *final(carried) == *old(carried),
        },
{
    let mut next_inventory = *inventory;
    let mut next_carried = *carried;
    match next_inventory.add(output) {
        Some(rest) => {
            if merge_into_cell(&mut next_carried, rest).is_some() {
                return false;
            }
        },
        None => {},
    }
    *inventory = next_inventory;
    *carried = next_carried;
    true
}

/// Returning one stack: into the inventory, then the furnace's input, then
/// its fuel. `None` when some of it has nowhere to go.
pub open spec fn return_step(
    slots: Seq<Option<ItemStack>>,
    furnace: Option<FurnaceSlots>,
    stack: ItemStack,
) -> Option<(Seq<Option<ItemStack>>, Option<FurnaceSlots>)> {
    let (s1, rest) = add_spec(slots, stack);
    match rest {
        None => Some((s1, furnace)),
        Some(left) => match furnace {
            None => None,
            Some(f) => {
                let (input2, l2) = merge_into_cell_spec(f.input, left);
                match l2 {
                    None => Some((s1, Some(FurnaceSlots { input: input2, fuel: f.fuel }))),
                    Some(l3) => {
                        let (fuel2, l4) = merge_into_cell_spec(f.fuel, l3);
                        match l4 {
                            None => Some((s1, Some(FurnaceSlots { input: input2, fuel: fuel2 }))),
                            Some(_) => None,
                        }
                    },
                }
            },
        },
    }
}

/// Returning every pending stack in order.
pub open spec fn return_all(
    slots: Seq<Option<ItemStack>>,
    furnace: Option<FurnaceSlots>,
    pending: Seq<ItemStack>,
) -> Option<(Seq<Option<ItemStack>>, Option<FurnaceSlots>)>
    decreases pending.len(),
{
    if pending.len() == 0 {
        Some((slots, furnace))
    } else {
        match return_step(slots, furnace, pending[0]) {
            None => None,
            Some((s2, f2)) => return_all(s2, f2, pending.drop_first()),
        }
    }
}

/// The stacks a closing panel has to hand back: the cursor's, then the
/// crafting grid's in cell order.
pub open spec fn panel_pending(carried: Option<ItemStack>, grid: Seq<Option<ItemStack>>) -> Seq<ItemStack> {
    match carried {
        Some(c) => seq![c] + occupied(grid),
        None => occupied(grid),
    }
}

/// How many of `x` a furnace's input and fuel slots hold.
pub open spec fn furnace_count(f: Option<FurnaceSlots>, x: ItemId) -> nat {
    match f {
        Some(f) => slot_count_of(f.input, x) + slot_count_of(f.fuel, x),
        None => 0,
    }
}

/// How many of `x` a run of stacks holds.
pub open spec fn stacks_count(ps: Seq<ItemStack>, x: ItemId) -> nat
    decreases ps.len(),
{
    if ps.len() == 0 {
        0
    } else {
        slot_count_of(Some(ps[0]), x) + stacks_count(ps.drop_first(), x)
    }
}

proof fn lemma_merge_into_cell_conserves(cell: Option<ItemStack>, stack: ItemStack, x: ItemId)
    ensures
        slot_count_of(merge_into_cell_spec(cell, stack).0, x) + slot_count_of(
            merge_into_cell_spec(cell, stack).1,
            x,
        ) == slot_count_of(cell, x) + slot_count_of(Some(stack), x),
{
    if let Some(e) = cell {
        lemma_merge_conserves(e, stack, x);
    }
}

proof fn lemma_return_step_conserves(
    slots: Seq<Option<ItemStack>>,
    f: Option<FurnaceSlots>,
    stack: ItemStack,
    x: ItemId,
)
    ensures
        match return_step(slots, f, stack) {
            Some((s2, f2)) => s2.len() == slots.len() && count_in(s2, x) + furnace_count(f2, x) == count_in(
                slots,
                x,
            ) + furnace_count(f, x) + slot_count_of(Some(stack), x),
            None => true,
        },
{
    if stack.count > 0 {
        lemma_add_conserves(slots, stack, x);
    }
    let (s1, rest) = add_spec(slots, stack);
    if let Some(left) = rest {
        if let Some(fs) = f {
            lemma_merge_into_cell_conserves(fs.input, left, x);
            let (input2, l2) = merge_into_cell_spec(fs.input, left);
            if let Some(l3) = l2 {
                lemma_merge_into_cell_conserves(fs.fuel, l3, x);
            }
        }
    }
}

/// Returning stacks into an inventory and a furnace loses and makes
/// nothing: what the slots and the furnace hold afterwards is what they held
/// before plus the returned stacks, for every item.
pub proof fn lemma_return_all_conserves(
    slots: Seq<Option<ItemStack>>,
    f: Option<FurnaceSlots>,
    pending: Seq<ItemStack>,
    x: ItemId,
)
    ensures
        match return_all(slots, f, pending) {
            Some((s, f2)) => s.len() == slots.len() && count_in(s, x) + furnace_count(f2, x) == count_in(
                slots,
                x,
            ) + furnace_count(f, x) + stacks_count(pending, x),
            None => true,
        },
    decreases pending.len(),
{
    if pending.len() > 0 {
        lemma_return_step_conserves(slots, f, pending[0], x);
        if let Some((s2, f2)) = return_step(slots, f, pending[0]) {
            lemma_return_all_conserves(s2, f2, pending.drop_first(), x);
        }
    }
}

proof fn lemma_stacks_count_push(ps: Seq<ItemStack>, st: ItemStack, x: ItemId)
    ensures
        stacks_count(ps.push(st), x) == stacks_count(ps, x) + slot_count_of(Some(st), x),
    decreases ps.len(),
{
    let qs = ps.push(st);
    if ps.len() == 0 {
        assert(qs.drop_first() =~= Seq::<ItemStack>::empty());
        assert(stacks_count(qs.drop_first(), x) == 0);
        assert(qs[0] == st);
    } else {
        assert(qs.drop_first() =~= ps.drop_first().push(st));
        assert(qs[0] == ps[0]);
        lemma_stacks_count_push(ps.drop_first(), st, x);
    }
}

proof fn lemma_occupied_count(g: Seq<Option<ItemStack>>, x: ItemId)
    ensures
        stacks_count(occupied(g), x) == count_in(g, x),
    decreases g.len(),
{
    if g.len() > 0 {
        let d = g.drop_last();
        lemma_occupied_count(d, x);
        lemma_count_range_frame(g, d, 0, d.len() as int, x);
        if let Some(st) = g.last() {
            lemma_stacks_count_push(occupied(d), st, x);
        }
    }
}

/// Closing a panel loses and makes nothing: when everything went back,
/// the inventory and the furnace together hold, of every item, what they
/// held before plus what was on the cursor and in the crafting grid.
pub proof fn lemma_panel_return_conserves(
    slots: Seq<Option<ItemStack>>,
    f: Option<FurnaceSlots>,
    carried: Option<ItemStack>,
    grid: Seq<Option<ItemStack>>,
    x: ItemId,
)
    ensures
        match return_all(slots, f, panel_pending(carried, grid)) {
            Some((s, f2)) => count_in(s, x) + furnace_count(f2, x) == count_in(slots, x) + furnace_count(f, x)
                + slot_count_of(carried, x) + count_in(grid, x),
            None => true,
        },
{
    lemma_return_all_conserves(slots, f, panel_pending(carried, grid), x);
    lemma_occupied_count(grid, x);
    if let Some(c) = carried {
        let ps = seq![c] + occupied(grid);
        assert(ps[0] == c);
        assert(ps.drop_first() =~= occupied(grid));
    }
}

/// Return transient panel stacks without loss: everything on the cursor and
/// in the crafting grid goes back into the inventory, overflowing into the
/// furnace's input and fuel slots when a furnace panel is open. If anything
/// would be lost, nothing changes and the result is false.
pub fn return_panel_items(
    inventory: &mut Inventory,
    carried: &mut Option<ItemStack>,
    craft_grid: &mut [Option<ItemStack>; 9],
    furnace: &mut Option<FurnaceSlots>,
) -> (r: bool)
    ensures
        final(inventory)@.selected == old(inventory)@.selected,
        match return_all(old(inventory)@.slots, *old(furnace), panel_pending(*old(carried), old(craft_grid)@)) {
            Some((s, f)) => r && final(inventory)@.slots == s && *final(furnace) == f
                && *final(carried) is None && final(craft_grid)@ == Seq::new(9, |i: int| None::<ItemStack>),
            None => !r && final(inventory)@ == old(inventory)@ && *final(furnace) == *old(furnace)
                && *final(carried) == *old(carried) && final(craft_grid)@ == old(craft_grid)@,
        },
        r ==> forall|x: ItemId|
            #[trigger] count_in(final(inventory)@.slots, x) + furnace_count(*final(furnace), x) == count_in(
                old(inventory)@.slots,
                x,
            ) + furnace_count(*old(furnace), x) + slot_count_of(*old(carried), x) + count_in(old(craft_grid)@, x),
{
    let mut pending: Vec<ItemStack> = Vec::new();
    match *carried {
        Some(c) => {
            pending.push(c);
        },
        None => {},
    }
    let ghost base = pending@;
    let mut i: usize = 0;
    while i < 9
        invariant
            i <= 9,
            pending@ == base + occupied(craft_grid@.subrange(0, i as int)),
            base == (match *old(carried) {
                Some(c) => seq![c],
                None => Seq::<ItemStack>::empty(),
            }),
            *carried == *old(carried),
            craft_grid@ == old(craft_grid)@,
        decreases 9 - i,
    {
        assert(craft_grid@.subrange(0, i as int + 1).drop_last() =~= craft_grid@.subrange(0, i as int));
        match craft_grid[i] {
            Some(s) => {
                pending.push(s);
            },
            None => {},
        }
        i = i + 1;
    }
    assert(craft_grid@.subrange(0, 9) =~= craft_grid@);
    assert(pending@ =~= panel_pending(*old(carried), old(craft_grid)@));
    let mut next_inventory = *inventory;
    let mut next_furnace = *furnace;
    let mut k: usize = 0;
    assert(pending@.skip(0) =~= pending@);
    while k < pending.len()
        invariant
            k <= pending@.len(),
            pending@ == panel_pending(*old(carried), old(craft_grid)@),
            next_inventory@.selected == old(inventory)@.selected,
            return_all(next_inventory@.slots, next_furnace, pending@.skip(k as int)) == return_all(
                old(inventory)@.slots,
                *old(furnace),
                pending@,
            ),
            *inventory == *old(inventory),
            *furnace == *old(furnace),
            *carried == *old(carried),
            craft_grid@ == old(craft_grid)@,
        decreases pending@.len() - k,
    {
        let stack = pending[k];
        assert(pending@.skip(k as int)[0] == stack);
        assert(pending@.skip(k as int).drop_first() =~= pending@.skip(k as int + 1));
        let mut rest = next_inventory.add(stack);
        match rest {
            Some(left) => {
                match next_furnace {
                    Some(f) => {
                        let mut target = f;
                        rest = merge_into_cell(&mut target.input, left);
                        match rest {
                            Some(l3) => {
                                rest = merge_into_cell(&mut target.fuel, l3);
                            },
                            None => {},
                        }
                        next_furnace = Some(target);
                    },
                    None => {},
                }
            },
            None => {},
        }
        if rest.is_some() {
            return false;
        }
        k = k + 1;
    }
    assert(pending@.skip(pending@.len() as int) =~= Seq::<ItemStack>::empty());
    *inventory = next_inventory;
    *furnace = next_furnace;
    *carried = None;
    let mut j: usize = 0;
    while j < 9
        invariant
            j <= 9,
            forall|t: int| 0 <= t < j ==> craft_grid@[t] is None,
        decreases 9 - j,
    {
        craft_grid[j] = None;
        j = j + 1;
    }
    assert(craft_grid@ =~= Seq::new(9, |i: int| None::<ItemStack>));
    proof {
        assert forall|x: ItemId|
            #[trigger] count_in(inventory@.slots, x) + furnace_count(*furnace, x) == count_in(
                old(inventory)@.slots,
                x,
            ) + furnace_count(*old(furnace), x) + slot_count_of(*old(carried), x) + count_in(
                old(craft_grid)@,
                x,
            ) by {
            lemma_panel_return_conserves(
                old(inventory)@.slots,
                *old(furnace),
                *old(carried),
                old(craft_grid)@,
                x,
            );
        }
    }
    true
}

/// Click on a crafting panel's output cell, with the first `cells` cells of
/// `grid` in use: if they form a recipe and its output fits in the inventory
/// or on the cursor, the output is stored and one item is spent from every
/// occupied cell. Otherwise nothing changes. The result says whether the
/// craft happened.
pub fn take_craft_output(
    inventory: &mut Inventory,
    carried: &mut Option<ItemStack>,
    grid: &mut [Option<ItemStack>; 9],
    cells: usize,
) -> (r: bool)
    requires
        cells <= 9,
        resolve_spec(old(grid)@.take(cells as int)) is Some ==> no_empty_stacks(old(grid)@.take(cells as int)),
    ensures
        final(inventory)@.selected == old(inventory)@.selected,
        match resolve_spec(old(grid)@.take(cells as int)) {
            Some(out) => match store_output_spec(old(inventory)@.slots, *old(carried), out) {
                Some((s, c)) => {
                    &&& r
                    &&& final(inventory)@.slots == s
                    &&& *final(carried) == c
                    &&& final(grid)@ == consumed(old(grid)@.take(cells as int)) + old(grid)@.skip(cells as int)
                },
                None => !r && final(inventory)@ == old(inventory)@ && *final(carried) == *old(carried)
                    && final(grid)@ == old(grid)@,
            },
            None => !r && final(inventory)@ == old(inventory)@ && *final(carried) == *old(carried)
                && final(grid)@ == old(grid)@,
        },
{
    let mut candidate: Vec<Option<ItemStack>> = Vec::new();
    let mut i: usize = 0;
    while i < cells
        invariant
            i <= cells <= 9,
            candidate@ == grid@.take(i as int),
        decreases cells - i,
    {
        candidate.push(grid[i]);
        assert(candidate@ =~= grid@.take(i + 1));
        i = i + 1;
    }
    let out = match craft(candidate.as_mut_slice()) {
        Some(o) => o,
        None => return false,
    };
    if !store_output(inventory, carried, out) {
        return false;
    }
    let ghost spent = candidate@;
    let mut i: usize = 0;
    while i < cells
        invariant
            i <= cells <= 9,
            candidate@ == spent,
            spent.len() == cells,
            grid@.len() == 9,
            forall|j: int| 0 <= j < i ==> grid@[j] == spent[j],
            forall|j: int| i <= j < 9 ==> grid@[j] == old(grid)@[j],
        decreases cells - i,
    {
        grid[i] = candidate[i];
        i = i + 1;
    }
    assert(grid@ =~= spent + old(grid)@.skip(cells as int));
    true
}

/// Click on a furnace panel's output cell. The output cell only ever gives:
/// its stack moves into the inventory, then onto the cursor, if all of it
/// fits; otherwise nothing changes. The result says whether it moved.
pub fn take_furnace_output(
    inventory: &mut Inventory,
    carried: &mut Option<ItemStack>,
    output: &mut Option<ItemStack>,
) -> (r: bool)
    ensures
        final(inventory)@.selected == old(inventory)@.selected,
        match *old(output) {
            Some(out) => match store_output_spec(old(inventory)@.slots, *old(carried), out) {
                Some((s, c)) => r && final(inventory)@.slots == s && *final(carried) == c
                    && *final(output) == None::<ItemStack>,
                None => !r && final(inventory)@ == old(inventory)@ && *final(carried) == *old(carried)
                    && *final(output) == *old(output),
            },
            None => !r && final(inventory)@ == old(inventory)@ && *final(carried) == *old(carried)
                && *final(output) == None::<ItemStack>,
        },
{
    match *output {
        None => false,
        Some(out) => {
            if store_output(inventory, carried, out) {
                *output = None;
                true
            } else {
                false
            }
        },
    }
}

/// What right-clicking a block does, before the world is asked whether there
/// is room to place anything: a crafting table or a furnace opens its panel;
/// any other block gets the held item's block placed against it, if the
/// held item is a block.
#[derive(Copy, Clone, Debug, PartialEq, Eq)]
pub enum RightClick {
    Open(Ui),
    Place(BlockId),
    Nothing,
}

/// The action of a right click on `aimed`, at `pos`, holding `held`.
pub open spec fn right_click_spec(aimed: BlockId, pos: (i32, i32, i32), held: Option<ItemStack>) -> RightClick {
    if aimed.0 == crate::block::FURNACE {
        RightClick::Open(Ui::Furnace(pos))
    } else if aimed.0 == crate::block::CRAFTING_TABLE {
        RightClick::Open(Ui::Table)
    } else {
        match held {
            Some(s) => match places_of(s.item.0) {
                Some(id) => RightClick::Place(id),
                None => RightClick::Nothing,
            },
            None => RightClick::Nothing,
        }
    }
}

/// Decide a right click on the block `aimed` at `pos` while holding `held`.
pub fn right_click(aimed: BlockId, pos: (i32, i32, i32), held: Option<ItemStack>) -> (r: RightClick)
    ensures
        r == right_click_spec(aimed, pos, held),
{
    if aimed.0 == crate::block::FURNACE {
        RightClick::Open(Ui::Furnace(pos))
    } else if aimed.0 == crate::block::CRAFTING_TABLE {
        RightClick::Open(Ui::Table)
    } else {
        match held {
            Some(s) => match s.item.places() {
                Some(id) => RightClick::Place(id),
                None => RightClick::Nothing,
            },
            None => RightClick::Nothing,
        }
    }
}

} // verus!
