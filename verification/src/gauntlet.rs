//! The playtest robot's action choice.
//!
//! A weighted random policy drives the player through long sessions. Which
//! behaviour a random roll selects is fixed here; drawing the roll, and
//! everything the robot then does in floating point, belongs to the harness.
use vstd::prelude::*;

verus! {

/// One behaviour the robot commits to for a burst.
#[derive(Clone, Copy, PartialEq, Eq, Structural, Debug, Hash)]
pub enum Act {
    Idle,
    Walk,
    Sprint,
    Strafe,
    Back,
    Jump,
    Mine,
    Smash,
    Place,
    Attack,
    Hotbar,
    OpenInventory,
    CloseUi,
    Teleport,
    Night,
    Day,
    SpawnMobs,
    Craft,
    SaveCheck,
}

/// The weight table, in the order rolls are matched against it. Movement and
/// mining dominate because that is what playing the game mostly is; the rare
/// directed entries (teleport, night, mobs, save) are what stop pure
/// randomness from never reaching a second biome or meeting anything that
/// fights back.
pub open spec fn weights() -> Seq<(Act, u32)> {
    seq![
        (Act::Walk, 22u32),
        (Act::Sprint, 12u32),
        (Act::Strafe, 6u32),
        (Act::Back, 4u32),
        (Act::Jump, 6u32),
        (Act::Mine, 20u32),
        (Act::Smash, 10u32),
        (Act::Place, 8u32),
        (Act::Attack, 5u32),
        (Act::Idle, 4u32),
        (Act::Hotbar, 3u32),
        (Act::OpenInventory, 3u32),
        (Act::CloseUi, 3u32),
        (Act::Craft, 2u32),
        (Act::Teleport, 5u32),
        (Act::Night, 2u32),
        (Act::Day, 2u32),
        (Act::SpawnMobs, 4u32),
        (Act::SaveCheck, 2u32),
    ]
}

/// Sum of the first `n` weights.
pub open spec fn weight_before(ws: Seq<(Act, u32)>, n: int) -> int
    decreases n,
{
    if n <= 0 {
        0
    } else {
        weight_before(ws, n - 1) + ws[n - 1].1
    }
}

/// The act a roll selects: walk down the table, subtracting each weight,
/// until the roll falls inside one.
pub open spec fn act_at(ws: Seq<(Act, u32)>, roll: int) -> Act
    decreases ws.len(),
{
    if ws.len() == 0 {
        Act::Walk
    } else if roll < ws[0].1 {
        ws[0].0
    } else {
        act_at(ws.drop_first(), roll - ws[0].1)
    }
}

/// Sum of all weights: rolls are drawn from `0..WEIGHT_TOTAL`.
pub const WEIGHT_TOTAL: u32 = 123;

/// The weight table as values.
pub fn weight_table() -> (r: [(Act, u32); 19])
    ensures
        r@ == weights(),
{
    let r = [
        (Act::Walk, 22),
        (Act::Sprint, 12),
        (Act::Strafe, 6),
        (Act::Back, 4),
        (Act::Jump, 6),
        (Act::Mine, 20),
        (Act::Smash, 10),
        (Act::Place, 8),
        (Act::Attack, 5),
        (Act::Idle, 4),
        (Act::Hotbar, 3),
        (Act::OpenInventory, 3),
        (Act::CloseUi, 3),
        (Act::Craft, 2),
        (Act::Teleport, 5),
        (Act::Night, 2),
        (Act::Day, 2),
        (Act::SpawnMobs, 4),
        (Act::SaveCheck, 2),
    ];
    assert(r@ =~= weights());
    r
}

/// The behaviour a roll in `0..WEIGHT_TOTAL` selects.
pub fn act_for_roll(roll: u32) -> (r: Act)
    ensures
        r == act_at(weights(), roll as int),
{
    let table = weight_table();
    let mut r = roll;
    let mut i: usize = 0;
    assert(weights().skip(0) =~= weights());
    while i < 19
        invariant
            i <= 19,
            table@ == weights(),
            act_at(weights(), roll as int) == act_at(weights().skip(i as int), r as int),
        decreases 19 - i,
    {
        let (a, w) = table[i];
        assert(weights().skip(i as int)[0] == table@[i as int]);
        assert(weights().skip(i as int).drop_first() =~= weights().skip(i + 1));
        if r < w {
            return a;
        }
        r = r - w;
        i = i + 1;
    }
    assert(weights().skip(19) =~= Seq::<(Act, u32)>::empty());
    Act::Walk
}

proof fn lemma_act_at_range(ws: Seq<(Act, u32)>, i: int, roll: int)
    requires
        0 <= i < ws.len(),
        weight_before(ws, i) <= roll < weight_before(ws, i) + ws[i].1,
    ensures
        act_at(ws, roll) == ws[i].0,
    decreases i,
{
    if i > 0 {
        let t = ws.drop_first();
        assert forall|n: int| 0 <= n <= i - 1 implies #[trigger] weight_before(t, n) == weight_before(
            ws,
            n + 1,
        ) - ws[0].1 by {
            lemma_weight_before_shift(ws, n);
        }
        lemma_weight_before_shift(ws, i - 1);
        lemma_weight_before_nonneg(t, i - 1);
        lemma_act_at_range(t, i - 1, roll - ws[0].1);
    }
}

proof fn lemma_weight_before_shift(ws: Seq<(Act, u32)>, n: int)
    requires
        ws.len() > 0,
        0 <= n < ws.len(),
    ensures
        weight_before(ws.drop_first(), n) == weight_before(ws, n + 1) - ws[0].1,
    decreases n,
{
    assert(weight_before(ws, 0) == 0);
    assert(weight_before(ws.drop_first(), 0) == 0);
    if n > 0 {
        lemma_weight_before_shift(ws, n - 1);
        assert(ws.drop_first()[n - 1] == ws[n]);
    }
}

proof fn lemma_weight_before_nonneg(ws: Seq<(Act, u32)>, n: int)
    ensures
        weight_before(ws, n) >= 0,
    decreases n,
{
    if n > 0 {
        lemma_weight_before_nonneg(ws, n - 1);
    }
}

/// Each behaviour is chosen by exactly its weight's worth of rolls: entry `i`
/// of the table takes the rolls from the sum of the weights before it up to
/// that sum plus its own weight, and the weights add up to
/// [`WEIGHT_TOTAL`], so every roll in `0..WEIGHT_TOTAL` picks some entry.
pub proof fn lemma_rolls_follow_weights(i: int, roll: int)
    requires
        0 <= i < weights().len(),
        weight_before(weights(), i) <= roll < weight_before(weights(), i) + weights()[i].1,
    ensures
        act_at(weights(), roll) == weights()[i].0,
        weight_before(weights(), weights().len() as int) == WEIGHT_TOTAL,
{
    lemma_act_at_range(weights(), i, roll);
    reveal_with_fuel(weight_before, 20);
}

} // verus!
