//! The mob kinds, the integer facts the save format needs about them, and
//! the mob brain: one tick of the state machine that decides what a mob does.
use vstd::prelude::*;

verus! {

#[derive(Copy, Clone, PartialEq, Eq, Structural, Debug, Hash)]
pub enum MobKind {
    /// Melee. Walks at you and hits you.
    Zombie,
    /// Ranged. Keeps its distance and shoots arrows.
    Skeleton,
    /// Closes, fuses, and blows a crater in the world.
    Creeper,
    /// Passive. Wanders, drops meat.
    Pig,
}

/// What a mob is doing.
#[derive(Copy, Clone, PartialEq, Eq, Structural, Debug)]
pub enum MobState {
    Idle,
    Wander,
    Investigate,
    Chase,
    Attack,
    Fuse,
}

/// What a dead mob leaves behind.
#[derive(Copy, Clone, PartialEq, Eq, Structural, Debug)]
pub enum DropKind {
    Meat,
    RottenFlesh,
    Bone,
    Arrow,
    Gunpowder,
}

/// What one explosion did to the world.
#[derive(Copy, Clone, Debug, Default, PartialEq, Eq)]
pub struct BlastReport {
    /// Blocks emptied entirely.
    pub blocks_destroyed: u32,
    /// Blocks left standing but chewed.
    pub blocks_damaged: u32,
    /// Sub-voxel carve calls issued.
    pub subvoxels_carved: u64,
}

/// The `f32` bit pattern of a kind's maximum health: 20 for a zombie, 16 for
/// a skeleton or creeper, 10 for a pig.
pub open spec fn max_health_bits_of(k: MobKind) -> u32 {
    match k {
        MobKind::Zombie => 0x41A0_0000,
        MobKind::Skeleton => 0x4180_0000,
        MobKind::Creeper => 0x4180_0000,
        MobKind::Pig => 0x4120_0000,
    }
}

impl MobKind {
    /// Every kind.
    pub fn all() -> (r: [MobKind; 4])
        ensures
            r@ == seq![MobKind::Zombie, MobKind::Skeleton, MobKind::Creeper, MobKind::Pig],
    {
        let r = [MobKind::Zombie, MobKind::Skeleton, MobKind::Creeper, MobKind::Pig];
        assert(r@ =~= seq![MobKind::Zombie, MobKind::Skeleton, MobKind::Creeper, MobKind::Pig]);
        r
    }

    /// The hostile kinds.
    pub fn hostiles() -> (r: [MobKind; 3])
        ensures
            r@ == seq![MobKind::Zombie, MobKind::Skeleton, MobKind::Creeper],
    {
        let r = [MobKind::Zombie, MobKind::Skeleton, MobKind::Creeper];
        assert(r@ =~= seq![MobKind::Zombie, MobKind::Skeleton, MobKind::Creeper]);
        r
    }

    /// Every kind but the pig attacks the player.
    pub fn is_hostile(self) -> (r: bool)
        ensures
            r == (self != MobKind::Pig),
    {
        match self {
            MobKind::Pig => false,
            _ => true,
        }
    }

    /// What this kind drops when it dies.
    pub fn drop_kind(self) -> (r: DropKind)
        ensures
            r == (match self {
                MobKind::Zombie => DropKind::RottenFlesh,
                MobKind::Skeleton => DropKind::Bone,
                MobKind::Creeper => DropKind::Gunpowder,
                MobKind::Pig => DropKind::Meat,
            }),
    {
        match self {
            MobKind::Zombie => DropKind::RottenFlesh,
            MobKind::Skeleton => DropKind::Bone,
            MobKind::Creeper => DropKind::Gunpowder,
            MobKind::Pig => DropKind::Meat,
        }
    }

    /// The `f32` bit pattern of this kind's maximum health.
    pub fn max_health_bits(self) -> (r: u32)
        ensures
            r == max_health_bits_of(self),
    {
        match self {
            MobKind::Zombie => 0x41A0_0000,
            MobKind::Skeleton => 0x4180_0000,
            MobKind::Creeper => 0x4180_0000,
            MobKind::Pig => 0x4120_0000,
        }
    }
}

// --- the mob brain --------------------------------------------------------------
//
// One tick of a mob's state machine, with every distance, timer and loudness
// already reduced to the yes-or-no answer the machine asks for. The
// simulation runs the timers down, computes these answers, and applies the
// step that comes back: which spot to head for, which timers to reset, and
// whether to strike, shoot or burn a fuse. Mobs walk to where a sound was,
// never to where the player is, unless they can see the player.

/// What a mob perceives this tick, each answered after the tick's timers
/// have run down.
#[derive(Copy, Clone, Debug, PartialEq, Eq, Structural)]
pub struct Senses {
    /// It sees the player: the player is alive, the kind is hostile, within
    /// sight range, with a clear line of sight.
    pub visible: bool,
    /// Chase memory has time left.
    pub chase_memory_left: bool,
    /// It hears a sound that clears its kind's hearing threshold.
    pub heard: bool,
    /// That sound is louder than the one it is investigating by more than
    /// the retarget margin.
    pub louder: bool,
    /// It stands (horizontally) within the arrive radius of the spot it is
    /// heading for.
    pub at_target: bool,
    /// It stands within the arrive radius of the heard sound.
    pub at_sound: bool,
    /// Investigation patience has time left.
    pub patience_left: bool,
    /// It is still looking around a spot it reached.
    pub look_running: bool,
    /// The player is within its kind's attack range.
    pub in_attack_range: bool,
    /// Its attack cooldown has run out.
    pub cooldown_ready: bool,
    /// The player is within fuse range.
    pub in_fuse_range: bool,
    /// The player is beyond fuse abort range.
    pub beyond_abort: bool,
    /// The player is alive.
    pub player_alive: bool,
}

/// Where the mob heads after this tick.
#[derive(Copy, Clone, Debug, PartialEq, Eq, Structural)]
pub enum Aim {
    /// The spot it was heading for.
    Keep,
    /// The player's position now: only ever while it sees the player.
    PlayerNow,
    /// Where the heard sound came from.
    Sound,
}

/// What happens to investigation patience.
#[derive(Copy, Clone, Debug, PartialEq, Eq, Structural)]
pub enum PatienceReset {
    Keep,
    /// The full patience of a fresh investigation.
    Investigate,
    /// The shorter look at the spot the player was last seen.
    LastSpot,
}

/// What happens to the loudness of the sound being investigated.
#[derive(Copy, Clone, Debug, PartialEq, Eq, Structural)]
pub enum LoudnessReset {
    Keep,
    /// The heard sound's loudness.
    Sound,
    Zero,
}

/// What happens to the look-around timer.
#[derive(Copy, Clone, Debug, PartialEq, Eq, Structural)]
pub enum LookReset {
    Keep,
    /// Cleared: no look is running.
    Clear,
    /// A full look around the spot starts.
    Start,
}

/// What happens to a creeper's fuse.
#[derive(Copy, Clone, Debug, PartialEq, Eq, Structural)]
pub enum FuseStep {
    Keep,
    /// Lit, and burning from this tick.
    Light,
    /// Burns on by this tick's time.
    Burn,
    /// Put out and reset.
    Abort,
}

/// What one tick of the state machine decides.
#[derive(Copy, Clone, Debug, PartialEq, Eq, Structural)]
pub struct MobStep {
    pub state: MobState,
    pub aim: Aim,
    /// Chase memory starts over.
    pub reset_chase_memory: bool,
    pub patience: PatienceReset,
    pub loudness: LoudnessReset,
    pub look: LookReset,
    /// Plan a new path now.
    pub repath_now: bool,
    /// Idle gives way to wandering at once.
    pub clear_wander_pause: bool,
    /// A zombie strikes the player.
    pub attack: bool,
    /// A skeleton shoots an arrow at the player.
    pub shoot: bool,
    pub fuse: FuseStep,
}

/// A step that changes nothing.
pub open spec fn unchanged_step(st: MobState) -> MobStep {
    MobStep {
        state: st,
        aim: Aim::Keep,
        reset_chase_memory: false,
        patience: PatienceReset::Keep,
        loudness: LoudnessReset::Keep,
        look: LookReset::Keep,
        repath_now: false,
        clear_wander_pause: false,
        attack: false,
        shoot: false,
        fuse: FuseStep::Keep,
    }
}

/// Sight, chase memory and hearing. A creeper counting down is held (only
/// its own abort frees it). A mob that sees the player chases its live
/// position. One that lost sight keeps heading where it last saw the player
/// while memory lasts. A sound sends it to investigate; while investigating,
/// a new sound takes over only if louder by the margin or once it has
/// arrived. Memory run out with nothing heard: it looks around the last
/// spot.
pub open spec fn perceive(st: MobState, s: Senses) -> MobStep {
    let base = unchanged_step(st);
    if st == MobState::Fuse {
        base
    } else if s.visible {
        MobStep { state: MobState::Chase, aim: Aim::PlayerNow, reset_chase_memory: true, ..base }
    } else if st == MobState::Chase && s.chase_memory_left {
        base
    } else if s.heard {
        if st != MobState::Investigate || s.louder || s.at_target {
            MobStep {
                state: MobState::Investigate,
                aim: Aim::Sound,
                patience: PatienceReset::Investigate,
                loudness: LoudnessReset::Sound,
                look: LookReset::Clear,
                repath_now: true,
                ..base
            }
        } else {
            base
        }
    } else if st == MobState::Chase {
        MobStep {
            state: MobState::Investigate,
            patience: PatienceReset::LastSpot,
            loudness: LoudnessReset::Zero,
            ..base
        }
    } else {
        base
    }
}

/// Investigating: at the spot, with no look running, a look starts. Out of
/// patience, or at the spot with nothing left to look at or hear, the mob
/// loses interest and goes idle.
pub open spec fn investigate(a: MobStep, s: Senses) -> MobStep {
    if a.state != MobState::Investigate {
        a
    } else {
        let stole = a.aim == Aim::Sound;
        let arrived = if stole {
            s.at_sound
        } else {
            s.at_target
        };
        let looking = if stole {
            false
        } else {
            s.look_running
        };
        let start = arrived && !looking;
        let patience_left = match a.patience {
            PatienceReset::Keep => s.patience_left,
            _ => true,
        };
        let a2 = if start {
            MobStep { look: LookReset::Start, ..a }
        } else {
            a
        };
        if !patience_left || (arrived && !(start || looking) && !s.heard) {
            MobStep {
                state: MobState::Idle,
                loudness: LoudnessReset::Zero,
                clear_wander_pause: true,
                ..a2
            }
        } else {
            a2
        }
    }
}

/// The kind's attack. A zombie that sees the player in range is attacking,
/// and strikes when its cooldown allows. A skeleton shoots then. A creeper
/// counting down aborts if the player got away or died, and burns on
/// otherwise; one that sees the player in fuse range lights its fuse.
pub open spec fn act(kind: MobKind, b: MobStep, s: Senses) -> MobStep {
    match kind {
        MobKind::Zombie => if s.visible && s.in_attack_range {
            MobStep { state: MobState::Attack, attack: s.cooldown_ready, ..b }
        } else {
            b
        },
        MobKind::Skeleton => if s.visible && s.in_attack_range && s.cooldown_ready {
            MobStep { shoot: true, ..b }
        } else {
            b
        },
        MobKind::Creeper => if b.state == MobState::Fuse {
            if s.beyond_abort || !s.player_alive {
                MobStep { state: MobState::Chase, fuse: FuseStep::Abort, ..b }
            } else {
                MobStep { fuse: FuseStep::Burn, ..b }
            }
        } else if s.in_fuse_range && s.visible {
            MobStep { state: MobState::Fuse, fuse: FuseStep::Light, ..b }
        } else {
            b
        },
        MobKind::Pig => b,
    }
}

/// One tick of a mob's state machine.
pub open spec fn mob_step_spec(kind: MobKind, state: MobState, s: Senses) -> MobStep {
    act(kind, investigate(perceive(state, s), s), s)
}

fn perceive_exec(st: MobState, s: Senses) -> (r: MobStep)
    ensures
        r == perceive(st, s),
{
    let base = MobStep {
        state: st,
        aim: Aim::Keep,
        reset_chase_memory: false,
        patience: PatienceReset::Keep,
        loudness: LoudnessReset::Keep,
        look: LookReset::Keep,
        repath_now: false,
        clear_wander_pause: false,
        attack: false,
        shoot: false,
        fuse: FuseStep::Keep,
    };
    if st == MobState::Fuse {
        base
    } else if s.visible {
        MobStep { state: MobState::Chase, aim: Aim::PlayerNow, reset_chase_memory: true, ..base }
    } else if st == MobState::Chase && s.chase_memory_left {
        base
    } else if s.heard {
        if st != MobState::Investigate || s.louder || s.at_target {
            MobStep {
                state: MobState::Investigate,
                aim: Aim::Sound,
                patience: PatienceReset::Investigate,
                loudness: LoudnessReset::Sound,
                look: LookReset::Clear,
                repath_now: true,
                ..base
            }
        } else {
            base
        }
    } else if st == MobState::Chase {
        MobStep {
            state: MobState::Investigate,
            patience: PatienceReset::LastSpot,
            loudness: LoudnessReset::Zero,
            ..base
        }
    } else {
        base
    }
}

fn investigate_exec(a: MobStep, s: Senses) -> (r: MobStep)
    ensures
        r == investigate(a, s),
{
    if a.state != MobState::Investigate {
        a
    } else {
        let stole = a.aim == Aim::Sound;
        let arrived = if stole {
            s.at_sound
        } else {
            s.at_target
        };
        let looking = if stole {
            false
        } else {
            s.look_running
        };
        let start = arrived && !looking;
        let patience_left = match a.patience {
            PatienceReset::Keep => s.patience_left,
            _ => true,
        };
        let a2 = if start {
            MobStep { look: LookReset::Start, ..a }
        } else {
            a
        };
        if !patience_left || (arrived && !(start || looking) && !s.heard) {
            MobStep {
                state: MobState::Idle,
                loudness: LoudnessReset::Zero,
                clear_wander_pause: true,
                ..a2
            }
        } else {
            a2
        }
    }
}

fn act_exec(kind: MobKind, b: MobStep, s: Senses) -> (r: MobStep)
    ensures
        r == act(kind, b, s),
{
    match kind {
        MobKind::Zombie => if s.visible && s.in_attack_range {
            MobStep { state: MobState::Attack, attack: s.cooldown_ready, ..b }
        } else {
            b
        },
        MobKind::Skeleton => if s.visible && s.in_attack_range && s.cooldown_ready {
            MobStep { shoot: true, ..b }
        } else {
            b
        },
        MobKind::Creeper => if b.state == MobState::Fuse {
            if s.beyond_abort || !s.player_alive {
                MobStep { state: MobState::Chase, fuse: FuseStep::Abort, ..b }
            } else {
                MobStep { fuse: FuseStep::Burn, ..b }
            }
        } else if s.in_fuse_range && s.visible {
            MobStep { state: MobState::Fuse, fuse: FuseStep::Light, ..b }
        } else {
            b
        },
        MobKind::Pig => b,
    }
}

/// A mob never shoots or strikes while its attack cooldown is running: a
/// skeleton fires, and a zombie strikes, exactly when it sees the player
/// within attack range and its cooldown is over. No other kind does either.
pub proof fn lemma_attacks_wait_for_cooldown(kind: MobKind, state: MobState, s: Senses)
    ensures
        mob_step_spec(kind, state, s).shoot <==> (kind == MobKind::Skeleton && s.visible
            && s.in_attack_range && s.cooldown_ready),
        mob_step_spec(kind, state, s).attack <==> (kind == MobKind::Zombie && s.visible
            && s.in_attack_range && s.cooldown_ready),
{
}

/// One tick of a mob's state machine: what it does, given its kind, the
/// state it is in and what it perceives.
pub fn mob_step(kind: MobKind, state: MobState, s: Senses) -> (r: MobStep)
    ensures
        r == mob_step_spec(kind, state, s),
        // It heads for the player's live position only while it sees the player.
        r.aim == Aim::PlayerNow ==> s.visible,
        // Seeing the player, anything not counting down chases it.
        s.visible && state != MobState::Fuse ==> r.aim == Aim::PlayerNow && r.reset_chase_memory,
        // Out of sight, chase memory keeps it heading where it last saw the player.
        !s.visible && state == MobState::Chase && s.chase_memory_left ==> r.aim == Aim::Keep,
        // A sound it may follow sends it to where the sound was.
        !s.visible && s.heard && state != MobState::Fuse && !(state == MobState::Chase && s.chase_memory_left)
            && (state != MobState::Investigate || s.louder || s.at_target) ==> r.aim == Aim::Sound && r.state
            == MobState::Investigate,
        // A quieter sound does not pull it off the one it is investigating.
        !s.visible && state == MobState::Investigate && !s.louder && !s.at_target ==> r.aim == Aim::Keep,
        // Out of patience with nothing new to see or hear, it loses interest.
        !s.visible && !s.heard && state == MobState::Investigate && !s.patience_left ==> r.state
            == MobState::Idle,
        // A creeper counting down stays on it while the player is near and alive...
        kind == MobKind::Creeper && state == MobState::Fuse && !s.beyond_abort && s.player_alive ==> r.state
            == MobState::Fuse && r.fuse == FuseStep::Burn,
        // ...and aborts once the player gets away or dies.
        kind == MobKind::Creeper && state == MobState::Fuse && (s.beyond_abort || !s.player_alive) ==> r.state
            == MobState::Chase && r.fuse == FuseStep::Abort,
        // Only a skeleton shoots, and only at a player it sees in range once
        // its cooldown has run out; then it always does.
        r.shoot <==> (kind == MobKind::Skeleton && s.visible && s.in_attack_range && s.cooldown_ready),
        // Only a zombie strikes, and only at a player it sees in range once its
        // cooldown has run out; then it always does.
        r.attack <==> (kind == MobKind::Zombie && s.visible && s.in_attack_range && s.cooldown_ready),
{
    proof {
        lemma_attacks_wait_for_cooldown(kind, state, s);
    }
    let a = perceive_exec(state, s);
    let b = investigate_exec(a, s);
    act_exec(kind, b, s)
}

} // verus!
