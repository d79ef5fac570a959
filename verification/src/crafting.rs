//! Crafting grids.
//!
//! A crafting grid is a flat, row-major run of slots: 4 long for the 2x2
//! inventory grid, 9 long for the 3x3 crafting table. [`resolve`] reports what
//! a grid would produce without touching it; [`craft`] also spends the
//! ingredients. Shaped recipes match anywhere inside the grid and in either
//! horizontal mirroring; shapeless recipes ignore position.
use vstd::prelude::*;
use crate::inventory::{is_full_spec, new_stack, ItemStack};
use crate::item::{
    max_stack_of, ItemId, COAL, COBBLESTONE, CRAFTING_TABLE, FURNACE,
    IRON_AXE, IRON_INGOT, IRON_PICKAXE, IRON_SWORD, PLANKS, RAW_IRON, STICK, STONE_AXE,
    STONE_PICKAXE, STONE_SWORD, TORCH, WOOD, WOODEN_AXE, WOODEN_PICKAXE, WOODEN_SWORD,
};

verus! {

/// Slot count of the inventory's 2x2 grid.
pub const GRID_2X2: usize = 4;
/// Slot count of the crafting table's 3x3 grid.
pub const GRID_3X3: usize = 9;

/// How a recipe's ingredients are arranged.
#[derive(Clone, Debug)]
pub enum Pattern {
    /// Ingredients in any arrangement: the grid must hold exactly these
    /// items, one per occupied cell, and nothing else.
    Shapeless(Vec<ItemId>),
    /// A `width` x `height` block of cells that must appear somewhere in the
    /// grid, with every cell outside it empty.
    Shaped { width: usize, height: usize, cells: Vec<Option<ItemId>> },
}

/// One craftable result.
#[derive(Clone, Debug)]
pub struct Recipe {
    pub pattern: Pattern,
    pub output: ItemId,
    pub count: u8,
}

/// The abstract form of a [`Pattern`].
pub enum PatternView {
    Shapeless(Seq<ItemId>),
    Shaped { width: int, height: int, cells: Seq<Option<ItemId>> },
}

/// The abstract form of a [`Recipe`].
pub struct RecipeView {
    pub pattern: PatternView,
    pub output: ItemId,
    pub count: u8,
}

impl View for Pattern {
    type V = PatternView;

    open spec fn view(&self) -> PatternView {
        match self {
            Pattern::Shapeless(items) => PatternView::Shapeless(items@),
            Pattern::Shaped { width, height, cells } => PatternView::Shaped {
                width: *width as int,
                height: *height as int,
                cells: cells@,
            },
        }
    }
}

impl View for Recipe {
    type V = RecipeView;

    open spec fn view(&self) -> RecipeView {
        RecipeView { pattern: self.pattern@, output: self.output, count: self.count }
    }
}

pub open spec fn shaped(width: int, height: int, cells: Seq<Option<ItemId>>, output: u16, count: u8) -> RecipeView {
    RecipeView {
        pattern: PatternView::Shaped { width, height, cells },
        output: ItemId(output),
        count,
    }
}

pub open spec fn some(n: u16) -> Option<ItemId> {
    Some(ItemId(n))
}

/// The pickaxe shape in a material: three across the top, two sticks down the
/// middle.
pub open spec fn pickaxe_recipe(mat: u16, out: u16) -> RecipeView {
    shaped(3, 3, seq![some(mat), some(mat), some(mat), None, some(STICK), None, None, some(STICK), None], out, 1)
}

/// The axe shape in a material.
pub open spec fn axe_recipe(mat: u16, out: u16) -> RecipeView {
    shaped(2, 3, seq![some(mat), some(mat), some(mat), some(STICK), None, some(STICK)], out, 1)
}

/// The sword shape in a material.
pub open spec fn sword_recipe(mat: u16, out: u16) -> RecipeView {
    shaped(1, 3, seq![some(mat), some(mat), some(STICK)], out, 1)
}

/// Every crafting recipe, in table order. The first match wins.
pub open spec fn recipe_table() -> Seq<RecipeView> {
    seq![
        RecipeView {
            pattern: PatternView::Shapeless(seq![ItemId(WOOD)]),
            output: ItemId(PLANKS),
            count: 4,
        },
        shaped(1, 2, seq![some(PLANKS), some(PLANKS)], STICK, 4),
        shaped(2, 2, seq![some(PLANKS), some(PLANKS), some(PLANKS), some(PLANKS)], CRAFTING_TABLE, 1),
        shaped(
            3,
            3,
            seq![
                some(COBBLESTONE), some(COBBLESTONE), some(COBBLESTONE),
                some(COBBLESTONE), None, some(COBBLESTONE),
                some(COBBLESTONE), some(COBBLESTONE), some(COBBLESTONE),
            ],
            FURNACE,
            1,
        ),
        shaped(1, 2, seq![some(COAL), some(STICK)], TORCH, 4),
        pickaxe_recipe(PLANKS, WOODEN_PICKAXE),
        pickaxe_recipe(COBBLESTONE, STONE_PICKAXE),
        pickaxe_recipe(IRON_INGOT, IRON_PICKAXE),
        axe_recipe(PLANKS, WOODEN_AXE),
        axe_recipe(COBBLESTONE, STONE_AXE),
        axe_recipe(IRON_INGOT, IRON_AXE),
        sword_recipe(PLANKS, WOODEN_SWORD),
        sword_recipe(COBBLESTONE, STONE_SWORD),
        sword_recipe(IRON_INGOT, IRON_SWORD),
    ]
}

/// A recipe's shape fits a grid cell layout.
pub open spec fn recipe_wf(r: RecipeView) -> bool {
    match r.pattern {
        PatternView::Shapeless(items) => items.len() > 0,
        PatternView::Shaped { width, height, cells } => 1 <= width <= 3 && 1 <= height <= 3
            && cells.len() == width * height,
    }
}

fn cell(n: u16) -> (r: Option<ItemId>)
    ensures
        r == some(n),
{
    Some(ItemId(n))
}

fn shaped_recipe(width: usize, height: usize, cells: Vec<Option<ItemId>>, output: u16, count: u8) -> (r: Recipe)
    ensures
        r@ == shaped(width as int, height as int, cells@, output, count),
{
    Recipe { pattern: Pattern::Shaped { width, height, cells }, output: ItemId(output), count }
}

fn pickaxe(mat: u16, out: u16) -> (r: Recipe)
    ensures
        r@ == pickaxe_recipe(mat, out),
{
    let cells = vec![cell(mat), cell(mat), cell(mat), None, cell(STICK), None, None, cell(STICK), None];
    assert(cells@ =~= seq![some(mat), some(mat), some(mat), None, some(STICK), None, None, some(STICK), None]);
    shaped_recipe(3, 3, cells, out, 1)
}

fn axe(mat: u16, out: u16) -> (r: Recipe)
    ensures
        r@ == axe_recipe(mat, out),
{
    let cells = vec![cell(mat), cell(mat), cell(mat), cell(STICK), None, cell(STICK)];
    assert(cells@ =~= seq![some(mat), some(mat), some(mat), some(STICK), None, some(STICK)]);
    shaped_recipe(2, 3, cells, out, 1)
}

fn sword(mat: u16, out: u16) -> (r: Recipe)
    ensures
        r@ == sword_recipe(mat, out),
{
    let cells = vec![cell(mat), cell(mat), cell(STICK)];
    assert(cells@ =~= seq![some(mat), some(mat), some(STICK)]);
    shaped_recipe(1, 3, cells, out, 1)
}

/// Every crafting recipe in the game, in table order.
pub fn recipes() -> (r: Vec<Recipe>)
    ensures
        r@.len() == recipe_table().len(),
        forall|i: int| 0 <= i < r@.len() ==> #[trigger] r@[i]@ == recipe_table()[i],
{
    let mut v: Vec<Recipe> = Vec::new();
    let planks_items = vec![ItemId(WOOD)];
    assert(planks_items@ =~= seq![ItemId(WOOD)]);
    v.push(Recipe { pattern: Pattern::Shapeless(planks_items), output: ItemId(PLANKS), count: 4 });
    let c = vec![cell(PLANKS), cell(PLANKS)];
    assert(c@ =~= seq![some(PLANKS), some(PLANKS)]);
    v.push(shaped_recipe(1, 2, c, STICK, 4));
    let c = vec![cell(PLANKS), cell(PLANKS), cell(PLANKS), cell(PLANKS)];
    assert(c@ =~= seq![some(PLANKS), some(PLANKS), some(PLANKS), some(PLANKS)]);
    v.push(shaped_recipe(2, 2, c, CRAFTING_TABLE, 1));
    let c = vec![
        cell(COBBLESTONE), cell(COBBLESTONE), cell(COBBLESTONE),
        cell(COBBLESTONE), None, cell(COBBLESTONE),
        cell(COBBLESTONE), cell(COBBLESTONE), cell(COBBLESTONE),
    ];
    assert(c@ =~= seq![
        some(COBBLESTONE), some(COBBLESTONE), some(COBBLESTONE),
        some(COBBLESTONE), None, some(COBBLESTONE),
        some(COBBLESTONE), some(COBBLESTONE), some(COBBLESTONE),
    ]);
    v.push(shaped_recipe(3, 3, c, FURNACE, 1));
    let c = vec![cell(COAL), cell(STICK)];
    assert(c@ =~= seq![some(COAL), some(STICK)]);
    v.push(shaped_recipe(1, 2, c, TORCH, 4));
    v.push(pickaxe(PLANKS, WOODEN_PICKAXE));
    v.push(pickaxe(COBBLESTONE, STONE_PICKAXE));
    v.push(pickaxe(IRON_INGOT, IRON_PICKAXE));
    v.push(axe(PLANKS, WOODEN_AXE));
    v.push(axe(COBBLESTONE, STONE_AXE));
    v.push(axe(IRON_INGOT, IRON_AXE));
    v.push(sword(PLANKS, WOODEN_SWORD));
    v.push(sword(COBBLESTONE, STONE_SWORD));
    v.push(sword(IRON_INGOT, IRON_SWORD));
    v
}

// --- matching ------------------------------------------------------------------

/// The item in a grid cell, ignoring the stack size.
pub open spec fn cell_item(c: Option<ItemStack>) -> Option<ItemId> {
    match c {
        Some(s) => Some(s.item),
        None => None,
    }
}

/// The item at column `gx`, row `gy` of a row-major grid `gw` wide.
pub open spec fn grid_at(grid: Seq<Option<ItemStack>>, gw: int, gx: int, gy: int) -> Option<ItemId> {
    cell_item(grid[gy * gw + gx])
}

/// Grid dimensions for a slot count: 4 is 2x2, 9 is 3x3, anything else is
/// not a grid.
pub open spec fn grid_dims_spec(len: int) -> Option<(int, int)> {
    if len == 4 {
        Some((2, 2))
    } else if len == 9 {
        Some((3, 3))
    } else {
        None
    }
}

/// What the pattern placed at `(ox, oy)`, possibly mirrored, wants in grid
/// cell `(gx, gy)`: its own cell inside the window, nothing outside.
pub open spec fn wanted(
    cells: Seq<Option<ItemId>>,
    pw: int,
    ph: int,
    ox: int,
    oy: int,
    mirror: bool,
    gx: int,
    gy: int,
) -> Option<ItemId> {
    if ox <= gx < ox + pw && oy <= gy < oy + ph {
        let px = if mirror {
            pw - 1 - (gx - ox)
        } else {
            gx - ox
        };
        cells[(gy - oy) * pw + px]
    } else {
        None
    }
}

/// The whole grid equals the pattern placed at `(ox, oy)` and is empty
/// everywhere else.
pub open spec fn window_matches_spec(
    grid: Seq<Option<ItemStack>>,
    gw: int,
    gh: int,
    ox: int,
    oy: int,
    pw: int,
    ph: int,
    cells: Seq<Option<ItemId>>,
    mirror: bool,
) -> bool {
    forall|gx: int, gy: int|
        0 <= gx < gw && 0 <= gy < gh ==> #[trigger] grid_at(grid, gw, gx, gy) == wanted(
            cells,
            pw,
            ph,
            ox,
            oy,
            mirror,
            gx,
            gy,
        )
}

/// The pattern fits somewhere in the grid, in some mirroring.
pub open spec fn shaped_matches_spec(
    grid: Seq<Option<ItemStack>>,
    gw: int,
    gh: int,
    pw: int,
    ph: int,
    cells: Seq<Option<ItemId>>,
) -> bool {
    pw <= gw && ph <= gh && exists|ox: int, oy: int, mirror: bool|
        0 <= ox <= gw - pw && 0 <= oy <= gh - ph && #[trigger] window_matches_spec(
            grid,
            gw,
            gh,
            ox,
            oy,
            pw,
            ph,
            cells,
            mirror,
        )
}

/// The items of the occupied cells, in cell order.
pub open spec fn present_items(grid: Seq<Option<ItemStack>>) -> Seq<ItemId>
    decreases grid.len(),
{
    if grid.len() == 0 {
        Seq::empty()
    } else {
        match grid.last() {
            Some(s) => present_items(grid.drop_last()).push(s.item),
            None => present_items(grid.drop_last()),
        }
    }
}

/// How many times `x` occurs in `s`.
pub open spec fn occ(s: Seq<ItemId>, x: ItemId) -> nat
    decreases s.len(),
{
    if s.len() == 0 {
        0
    } else {
        occ(s.drop_last(), x) + if s.last() == x {
            1nat
        } else {
            0nat
        }
    }
}

/// The occupied cells hold exactly the ingredients, as a multiset.
pub open spec fn shapeless_matches_spec(grid: Seq<Option<ItemStack>>, ingredients: Seq<ItemId>) -> bool {
    forall|x: ItemId| #[trigger] occ(present_items(grid), x) == occ(ingredients, x)
}

/// Whether a recipe matches a `w` x `h` grid.
pub open spec fn recipe_matches(r: RecipeView, grid: Seq<Option<ItemStack>>, w: int, h: int) -> bool {
    match r.pattern {
        PatternView::Shapeless(items) => shapeless_matches_spec(grid, items),
        PatternView::Shaped { width, height, cells } => shaped_matches_spec(
            grid,
            w,
            h,
            width,
            height,
            cells,
        ),
    }
}

/// Index of the first recipe at or after `k` that matches.
pub open spec fn first_match(table: Seq<RecipeView>, grid: Seq<Option<ItemStack>>, w: int, h: int, k: int) -> Option<int>
    decreases table.len() - k,
{
    if k < 0 || k >= table.len() {
        None
    } else if recipe_matches(table[k], grid, w, h) {
        Some(k)
    } else {
        first_match(table, grid, w, h, k + 1)
    }
}

/// Every cell empty.
pub open spec fn all_empty(grid: Seq<Option<ItemStack>>) -> bool {
    forall|i: int| 0 <= i < grid.len() ==> grid[i] is None
}

/// The index of the recipe a grid resolves to, if any.
pub open spec fn resolved_recipe(grid: Seq<Option<ItemStack>>) -> Option<int> {
    match grid_dims_spec(grid.len() as int) {
        None => None,
        Some((w, h)) => if all_empty(grid) {
            None
        } else {
            first_match(recipe_table(), grid, w, h, 0)
        },
    }
}

/// What a grid would produce.
pub open spec fn resolve_spec(grid: Seq<Option<ItemStack>>) -> Option<ItemStack> {
    match resolved_recipe(grid) {
        None => None,
        Some(k) => Some(new_stack(recipe_table()[k].output, recipe_table()[k].count)),
    }
}

/// One item spent from every occupied cell; cells that run out are emptied.
pub open spec fn consumed(grid: Seq<Option<ItemStack>>) -> Seq<Option<ItemStack>> {
    Seq::new(
        grid.len(),
        |i: int|
            match grid[i] {
                Some(s) => if s.count <= 1 {
                    None
                } else {
                    Some(ItemStack { count: (s.count - 1) as u8, ..s })
                },
                None => None,
            },
    )
}

/// No occupied cell holds a zero-count stack.
pub open spec fn no_empty_stacks(grid: Seq<Option<ItemStack>>) -> bool {
    forall|i: int| 0 <= i < grid.len() ==> (#[trigger] grid[i] matches Some(s) ==> s.count > 0)
}

proof fn lemma_grid_index(gw: int, gh: int, gx: int, gy: int)
    by (nonlinear_arith)
    requires
        0 <= gx < gw <= 3,
        0 <= gy < gh <= 3,
    ensures
        0 <= gy * gw + gx < gw * gh,
        gy * gw <= 9,
{
}

proof fn lemma_cell_index(pw: int, ph: int, px: int, py: int)
    by (nonlinear_arith)
    requires
        0 <= px < pw <= 3,
        0 <= py < ph <= 3,
    ensures
        0 <= py * pw + px < pw * ph,
        py * pw <= 9,
{
}

/// The items of the occupied cells of `grid`.
fn collect_present(grid: &[Option<ItemStack>]) -> (r: Vec<ItemId>)
    ensures
        r@ == present_items(grid@),
{
    let mut out: Vec<ItemId> = Vec::new();
    let mut i: usize = 0;
    while i < grid.len()
        invariant
            i <= grid@.len(),
            out@ == present_items(grid@.subrange(0, i as int)),
        decreases grid@.len() - i,
    {
        assert(grid@.subrange(0, i as int + 1).drop_last() =~= grid@.subrange(0, i as int));
        match grid[i] {
            Some(s) => {
                out.push(s.item);
            },
            None => {},
        }
        i = i + 1;
    }
    assert(grid@.subrange(0, grid@.len() as int) =~= grid@);
    out
}

/// How many times `x` occurs in `v`.
fn count_occurrences(v: &Vec<ItemId>, x: ItemId) -> (r: usize)
    ensures
        r == occ(v@, x),
{
    let mut n: usize = 0;
    let mut i: usize = 0;
    while i < v.len()
        invariant
            i <= v@.len(),
            n == occ(v@.subrange(0, i as int), x),
            n <= i,
        decreases v@.len() - i,
    {
        assert(v@.subrange(0, i as int + 1).drop_last() =~= v@.subrange(0, i as int));
        if v[i] == x {
            n = n + 1;
        }
        i = i + 1;
    }
    assert(v@.subrange(0, v@.len() as int) =~= v@);
    n
}

proof fn lemma_occ_witness(s: Seq<ItemId>, x: ItemId)
    requires
        occ(s, x) > 0,
    ensures
        exists|i: int| 0 <= i < s.len() && s[i] == x,
    decreases s.len(),
{
    if s.last() != x {
        lemma_occ_witness(s.drop_last(), x);
        let i = choose|i: int| 0 <= i < s.drop_last().len() && s.drop_last()[i] == x;
        assert(s[i] == x);
    } else {
        assert(s[s.len() - 1] == x);
    }
}

/// Position-independent match: the occupied cells are exactly the recipe's
/// ingredient multiset.
fn matches_shapeless(grid: &[Option<ItemStack>], ingredients: &Vec<ItemId>) -> (r: bool)
    ensures
        r == shapeless_matches_spec(grid@, ingredients@),
{
    let present = collect_present(grid);
    let mut i: usize = 0;
    while i < ingredients.len()
        invariant
            present@ == present_items(grid@),
            i <= ingredients@.len(),
            forall|k: int| 0 <= k < i ==> occ(present@, #[trigger] ingredients@[k]) == occ(ingredients@, ingredients@[k]),
        decreases ingredients@.len() - i,
    {
        let x = ingredients[i];
        if count_occurrences(&present, x) != count_occurrences(ingredients, x) {
            return false;
        }
        i = i + 1;
    }
    let mut j: usize = 0;
    while j < present.len()
        invariant
            present@ == present_items(grid@),
            j <= present@.len(),
            forall|k: int| 0 <= k < ingredients@.len() ==> occ(present@, #[trigger] ingredients@[k]) == occ(ingredients@, ingredients@[k]),
            forall|k: int| 0 <= k < j ==> occ(present@, #[trigger] present@[k]) == occ(ingredients@, present@[k]),
        decreases present@.len() - j,
    {
        let x = present[j];
        if count_occurrences(&present, x) != count_occurrences(ingredients, x) {
            return false;
        }
        j = j + 1;
    }
    proof {
        assert forall|x: ItemId| #[trigger] occ(present_items(grid@), x) == occ(ingredients@, x) by {
            if occ(present@, x) > 0 {
                lemma_occ_witness(present@, x);
            } else if occ(ingredients@, x) > 0 {
                lemma_occ_witness(ingredients@, x);
            }
        }
    }
    true
}

/// True when the whole grid equals the pattern placed at `(ox, oy)` and is
/// empty everywhere else.
fn window_matches(
    grid: &[Option<ItemStack>],
    gw: usize,
    gh: usize,
    ox: usize,
    oy: usize,
    pw: usize,
    ph: usize,
    cells: &Vec<Option<ItemId>>,
    mirror: bool,
) -> (r: bool)
    requires
        1 <= gw <= 3,
        1 <= gh <= 3,
        grid@.len() == gw * gh,
        1 <= pw <= gw,
        1 <= ph <= gh,
        ox + pw <= gw,
        oy + ph <= gh,
        cells@.len() == pw * ph,
    ensures
        r == window_matches_spec(grid@, gw as int, gh as int, ox as int, oy as int, pw as int, ph as int, cells@, mirror),
{
    let mut gy: usize = 0;
    while gy < gh
        invariant
            1 <= gw <= 3,
            1 <= gh <= 3,
            grid@.len() == gw * gh,
            1 <= pw <= gw,
            1 <= ph <= gh,
            ox + pw <= gw,
            oy + ph <= gh,
            cells@.len() == pw * ph,
            gy <= gh,
            forall|x: int, y: int|
                0 <= x < gw && 0 <= y < gy ==> #[trigger] grid_at(grid@, gw as int, x, y) == wanted(
                    cells@, pw as int, ph as int, ox as int, oy as int, mirror, x, y),
        decreases gh - gy,
    {
        let mut gx: usize = 0;
        while gx < gw
            invariant
                1 <= gw <= 3,
                1 <= gh <= 3,
                grid@.len() == gw * gh,
                1 <= pw <= gw,
                1 <= ph <= gh,
                ox + pw <= gw,
                oy + ph <= gh,
                cells@.len() == pw * ph,
                gy < gh,
                gx <= gw,
                forall|x: int, y: int|
                    0 <= x < gw && 0 <= y < gy ==> #[trigger] grid_at(grid@, gw as int, x, y) == wanted(
                        cells@, pw as int, ph as int, ox as int, oy as int, mirror, x, y),
                forall|x: int|
                    0 <= x < gx ==> #[trigger] grid_at(grid@, gw as int, x, gy as int) == wanted(
                        cells@, pw as int, ph as int, ox as int, oy as int, mirror, x, gy as int),
            decreases gw - gx,
        {
            proof {
                lemma_grid_index(gw as int, gh as int, gx as int, gy as int);
            }
            let inside = gx >= ox && gx < ox + pw && gy >= oy && gy < oy + ph;
            let want = if inside {
                let px = if mirror {
                    pw - 1 - (gx - ox)
                } else {
                    gx - ox
                };
                proof {
                    lemma_cell_index(pw as int, ph as int, px as int, (gy - oy) as int);
                }
                cells[(gy - oy) * pw + px]
            } else {
                None
            };
            let have = match grid[gy * gw + gx] {
                Some(s) => Some(s.item),
                None => None,
            };
            assert(have == grid_at(grid@, gw as int, gx as int, gy as int));
            if have != want {
                return false;
            }
            gx = gx + 1;
        }
        gy = gy + 1;
    }
    true
}

/// Slide the pattern over every position it fits, in both mirrorings.
fn matches_shaped(
    grid: &[Option<ItemStack>],
    gw: usize,
    gh: usize,
    pw: usize,
    ph: usize,
    cells: &Vec<Option<ItemId>>,
) -> (r: bool)
    requires
        1 <= gw <= 3,
        1 <= gh <= 3,
        grid@.len() == gw * gh,
        1 <= pw <= 3,
        1 <= ph <= 3,
        cells@.len() == pw * ph,
    ensures
        r == shaped_matches_spec(grid@, gw as int, gh as int, pw as int, ph as int, cells@),
{
    if pw > gw || ph > gh {
        return false;
    }
    let mut oy: usize = 0;
    while oy <= gh - ph
        invariant
            1 <= gw <= 3,
            1 <= gh <= 3,
            grid@.len() == gw * gh,
            1 <= pw <= gw,
            1 <= ph <= gh,
            cells@.len() == pw * ph,
            oy <= gh - ph + 1,
            forall|x: int, y: int, m: bool|
                0 <= x <= gw - pw && 0 <= y < oy ==> !#[trigger] window_matches_spec(
                    grid@, gw as int, gh as int, x, y, pw as int, ph as int, cells@, m),
        decreases gh - ph + 1 - oy,
    {
        let mut ox: usize = 0;
        while ox <= gw - pw
            invariant
                1 <= gw <= 3,
                1 <= gh <= 3,
                grid@.len() == gw * gh,
                1 <= pw <= gw,
                1 <= ph <= gh,
                cells@.len() == pw * ph,
                oy <= gh - ph,
                ox <= gw - pw + 1,
                forall|x: int, y: int, m: bool|
                    0 <= x <= gw - pw && 0 <= y < oy ==> !#[trigger] window_matches_spec(
                        grid@, gw as int, gh as int, x, y, pw as int, ph as int, cells@, m),
                forall|x: int, m: bool|
                    0 <= x < ox ==> !#[trigger] window_matches_spec(
                        grid@, gw as int, gh as int, x, oy as int, pw as int, ph as int, cells@, m),
            decreases gw - pw + 1 - ox,
        {
            if window_matches(grid, gw, gh, ox, oy, pw, ph, cells, false) {
                return true;
            }
            if window_matches(grid, gw, gh, ox, oy, pw, ph, cells, true) {
                return true;
            }
            proof {
                assert forall|m: bool| !#[trigger] window_matches_spec(
                    grid@, gw as int, gh as int, ox as int, oy as int, pw as int, ph as int, cells@, m) by {
                    if m {
                    } else {
                    }
                }
            }
            ox = ox + 1;
        }
        oy = oy + 1;
    }
    false
}

/// Whether a recipe matches a `w` x `h` grid.
fn matches_grid(recipe: &Recipe, grid: &[Option<ItemStack>], w: usize, h: usize) -> (r: bool)
    requires
        recipe_wf(recipe@),
        1 <= w <= 3,
        1 <= h <= 3,
        grid@.len() == w * h,
    ensures
        r == recipe_matches(recipe@, grid@, w as int, h as int),
{
    match &recipe.pattern {
        Pattern::Shapeless(items) => matches_shapeless(grid, items),
        Pattern::Shaped { width, height, cells } => matches_shaped(grid, w, h, *width, *height, cells),
    }
}

/// Grid dimensions for a slot count, or `None` for a length that is not a
/// supported grid.
fn grid_dims(len: usize) -> (r: Option<(usize, usize)>)
    ensures
        r == (match grid_dims_spec(len as int) {
            Some((w, h)) => Some((w as usize, h as usize)),
            None => None::<(usize, usize)>,
        }),
{
    if len == GRID_2X2 {
        Some((2, 2))
    } else if len == GRID_3X3 {
        Some((3, 3))
    } else {
        None
    }
}

#[verifier::spinoff_prover]
#[verifier::rlimit(30)]
proof fn lemma_table_wf(k: int)
    requires
        0 <= k < recipe_table().len(),
    ensures
        recipe_wf(recipe_table()[k]),
{
    let t = recipe_table();
    assert(recipe_wf(t[0]));
    assert(recipe_wf(t[1]));
    assert(recipe_wf(t[2]));
    assert(recipe_wf(t[3]));
    assert(recipe_wf(t[4]));
    assert(recipe_wf(t[5]));
    assert(recipe_wf(t[6]));
    assert(recipe_wf(t[7]));
    assert(recipe_wf(t[8]));
    assert(recipe_wf(t[9]));
    assert(recipe_wf(t[10]));
    assert(recipe_wf(t[11]));
    assert(recipe_wf(t[12]));
    assert(recipe_wf(t[13]));
}

proof fn lemma_first_match_in_range(table: Seq<RecipeView>, grid: Seq<Option<ItemStack>>, w: int, h: int, k: int)
    ensures
        first_match(table, grid, w, h, k) matches Some(i) ==> k <= i < table.len() && 0 <= i,
    decreases table.len() - k,
{
    if 0 <= k < table.len() && !recipe_matches(table[k], grid, w, h) {
        lemma_first_match_in_range(table, grid, w, h, k + 1);
    }
}

/// Index of the recipe this grid resolves to.
fn find_recipe(table: &Vec<Recipe>, grid: &[Option<ItemStack>]) -> (r: Option<usize>)
    requires
        table@.len() == recipe_table().len(),
        forall|i: int| 0 <= i < table@.len() ==> #[trigger] table@[i]@ == recipe_table()[i],
    ensures
        match resolved_recipe(grid@) {
            Some(k) => r == Some(k as usize) && 0 <= k < recipe_table().len(),
            None => r is None,
        },
{
    let (w, h) = match grid_dims(grid.len()) {
        Some(d) => d,
        None => {
            return None;
        },
    };
    proof {
        lemma_first_match_in_range(recipe_table(), grid@, w as int, h as int, 0);
    }
    let mut i: usize = 0;
    let mut empty = true;
    while i < grid.len()
        invariant
            i <= grid@.len(),
            empty == (forall|j: int| 0 <= j < i ==> grid@[j] is None),
        decreases grid@.len() - i,
    {
        if grid[i].is_some() {
            empty = false;
        }
        i = i + 1;
    }
    if empty {
        return None;
    }
    let mut k: usize = 0;
    while k < table.len()
        invariant
            table@.len() == recipe_table().len(),
            forall|i: int| 0 <= i < table@.len() ==> #[trigger] table@[i]@ == recipe_table()[i],
            grid_dims_spec(grid@.len() as int) == Some((w as int, h as int)),
            !all_empty(grid@),
            k <= table@.len(),
            first_match(recipe_table(), grid@, w as int, h as int, k as int) == resolved_recipe(grid@),
        decreases table@.len() - k,
    {
        proof {
            lemma_table_wf(k as int);
        }
        if matches_grid(&table[k], grid, w, h) {
            return Some(k);
        }
        k = k + 1;
    }
    None
}

/// What this grid would produce, or `None` if the arrangement is not a
/// recipe. Does not modify the grid.
pub fn resolve(grid: &[Option<ItemStack>]) -> (r: Option<ItemStack>)
    ensures
        r == resolve_spec(grid@),
{
    let table = recipes();
    match find_recipe(&table, grid) {
        None => None,
        Some(k) => {
            assert(table@[k as int]@ == recipe_table()[k as int]);
            Some(ItemStack::new(table[k].output, table[k].count))
        },
    }
}

/// The recipe this grid satisfies, if any.
pub fn recipe_for(grid: &[Option<ItemStack>]) -> (r: Option<Recipe>)
    ensures
        match resolved_recipe(grid@) {
            Some(k) => r matches Some(rec) && rec@ == recipe_table()[k],
            None => r is None,
        },
{
    let mut table = recipes();
    match find_recipe(&table, grid) {
        None => None,
        Some(k) => {
            assert(table@[k as int]@ == recipe_table()[k as int]);
            Some(table.remove(k))
        },
    }
}

/// Spend one item from every occupied cell, emptying cells that run out.
/// This is what a successful craft costs; call [`resolve`] first.
pub fn consume(grid: &mut [Option<ItemStack>])
    requires
        no_empty_stacks(old(grid)@),
    ensures
        final(grid)@ == consumed(old(grid)@),
{
    let mut i: usize = 0;
    while i < grid.len()
        invariant
            grid@.len() == old(grid)@.len(),
            i <= grid@.len(),
            no_empty_stacks(old(grid)@),
            forall|j: int| 0 <= j < i ==> grid@[j] == #[trigger] consumed(old(grid)@)[j],
            forall|j: int| i <= j < grid@.len() ==> grid@[j] == old(grid)@[j],
        decreases grid@.len() - i,
    {
        let next = match grid[i] {
            Some(s) => {
                assert(old(grid)@[i as int] matches Some(t) && t.count > 0);
                if s.count <= 1 {
                    None
                } else {
                    Some(ItemStack { count: s.count - 1, ..s })
                }
            },
            None => None,
        };
        grid[i] = next;
        i = i + 1;
    }
    assert(grid@ =~= consumed(old(grid)@));
}

/// Resolve, then spend one item from every occupied cell. Returns the result,
/// leaving the grid untouched if nothing matched.
pub fn craft(grid: &mut [Option<ItemStack>]) -> (r: Option<ItemStack>)
    requires
        resolve_spec(old(grid)@) is Some ==> no_empty_stacks(old(grid)@),
    ensures
        r == resolve_spec(old(grid)@),
        r is Some ==> final(grid)@ == consumed(old(grid)@),
        r is None ==> final(grid)@ == old(grid)@,
{
    let out = resolve(grid);
    match out {
        None => None,
        Some(o) => {
            consume(grid);
            Some(o)
        },
    }
}

/// What one of `input` smelts into, if anything: raw iron becomes an ingot.
pub open spec fn smelt_spec(input: ItemId) -> Option<ItemId> {
    if input.0 == RAW_IRON {
        Some(ItemId(IRON_INGOT))
    } else {
        None::<ItemId>
    }
}

pub fn smelt_result(input: ItemId) -> (r: Option<ItemId>)
    ensures
        r == smelt_spec(input),
{
    if input.0 == RAW_IRON {
        Some(ItemId(IRON_INGOT))
    } else {
        None
    }
}

// --- furnace item rules -----------------------------------------------------------
//
// A furnace's clock (burn time, smelt progress) runs in seconds of floating
// point and belongs to the game loop; which items move when it fires is here.

/// Whether a furnace holding `input` and `output` has work to do: the input
/// smelts into something, and the output slot is empty or holds that same
/// product with room left.
pub open spec fn has_work_spec(input: Option<ItemStack>, output: Option<ItemStack>) -> bool {
    match input {
        None => false,
        Some(i) => match smelt_spec(i.item) {
            None => false,
            Some(product) => match output {
                None => true,
                Some(o) => o.item == product && !is_full_spec(o),
            },
        },
    }
}

/// A furnace has work exactly when its input smelts into something and the
/// product has somewhere to go: the output slot is empty, or holds that same
/// product below its stack limit. Finishing a smelt then always adds one
/// product to the output and never throws one away.
pub proof fn lemma_furnace_work_has_room(input: Option<ItemStack>, output: Option<ItemStack>)
    ensures
        has_work_spec(input, output) <==> (input matches Some(i) && i.item.0 == RAW_IRON && (
        output is None || (output matches Some(o) && o.item.0 == IRON_INGOT && o.count
            < max_stack_of(o.item.0)))),
{
}

pub fn furnace_has_work(input: Option<ItemStack>, output: Option<ItemStack>) -> (r: bool)
    ensures
        r == has_work_spec(input, output),
        r ==> input is Some && smelt_spec(input.unwrap().item) is Some,
        r && output is Some ==> output.unwrap().item == smelt_spec(input.unwrap().item).unwrap()
            && output.unwrap().count < max_stack_of(output.unwrap().item.0),
{
    match input {
        None => false,
        Some(i) => match smelt_result(i.item) {
            None => false,
            Some(product) => match output {
                None => true,
                Some(o) => o.item == product && !o.is_full(),
            },
        },
    }
}

/// A stack with one item taken off it; `None` once it is used up.
pub open spec fn one_fewer(s: ItemStack) -> Option<ItemStack> {
    if s.count <= 1 {
        None
    } else {
        Some(ItemStack { count: (s.count - 1) as u8, ..s })
    }
}

/// Take one item off a slot, as lighting a fuel item or finishing a smelt
/// does.
pub fn take_one(slot: &mut Option<ItemStack>)
    ensures
        *final(slot) == (match *old(slot) {
            Some(s) => one_fewer(s),
            None => None,
        }),
{
    if let Some(s) = *slot {
        *slot = if s.count <= 1 {
            None
        } else {
            Some(ItemStack { count: s.count - 1, ..s })
        };
    }
}

/// Move one finished item from input to output. The product joins a
/// matching output stack with room, fills an empty output slot, and is lost
/// against anything else, which [`furnace_has_work`] keeps from happening.
pub fn finish_smelt(input: &mut Option<ItemStack>, output: &mut Option<ItemStack>, product: ItemId)
    ensures
        *final(input) == (match *old(input) {
            Some(s) => one_fewer(s),
            None => None,
        }),
        *final(output) == (match *old(output) {
            Some(o) => if o.item == product && !is_full_spec(o) {
                Some(ItemStack { count: (o.count + 1) as u8, ..o })
            } else {
                Some(o)
            },
            None => Some(new_stack(product, 1)),
        }),
{
    take_one(input);
    match *output {
        Some(o) => {
            if o.item == product && !o.is_full() {
                *output = Some(ItemStack { count: o.count + 1, ..o });
            }
        },
        None => {
            *output = Some(ItemStack::new(product, 1));
        },
    }
}

} // verus!
