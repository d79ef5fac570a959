use loudstone::mob::{mob_step, Aim, FuseStep, LookReset, LoudnessReset, MobKind, MobState, PatienceReset, Senses};

/// Nothing seen, heard or remembered; timers run out; the player far away.
fn quiet() -> Senses {
    Senses {
        visible: false,
        chase_memory_left: false,
        heard: false,
        louder: false,
        at_target: false,
        at_sound: false,
        patience_left: false,
        look_running: false,
        in_attack_range: false,
        cooldown_ready: true,
        in_fuse_range: false,
        beyond_abort: true,
        player_alive: true,
    }
}

#[test]
fn a_heard_sound_sends_a_mob_to_the_sound_not_the_player() {
    let s = Senses { heard: true, ..quiet() };
    let r = mob_step(MobKind::Zombie, MobState::Idle, s);
    assert_eq!(r.state, MobState::Investigate);
    assert_eq!(r.aim, Aim::Sound);
    assert_eq!(r.patience, PatienceReset::Investigate);
    assert_eq!(r.loudness, LoudnessReset::Sound);
    assert_eq!(r.look, LookReset::Clear);
    assert!(r.repath_now);
}

#[test]
fn an_investigating_mob_ignores_the_player_it_cannot_see() {
    let s = Senses { patience_left: true, ..quiet() };
    let r = mob_step(MobKind::Zombie, MobState::Investigate, s);
    assert_eq!(r.state, MobState::Investigate);
    assert_eq!(r.aim, Aim::Keep);
}

#[test]
fn a_quieter_sound_does_not_steal_an_investigation_but_a_louder_one_does() {
    let s = Senses { heard: true, patience_left: true, ..quiet() };
    assert_eq!(mob_step(MobKind::Zombie, MobState::Investigate, s).aim, Aim::Keep);
    let louder = Senses { louder: true, ..s };
    assert_eq!(mob_step(MobKind::Zombie, MobState::Investigate, louder).aim, Aim::Sound);
    // Having arrived, any new sound takes over.
    let arrived = Senses { at_target: true, ..s };
    assert_eq!(mob_step(MobKind::Zombie, MobState::Investigate, arrived).aim, Aim::Sound);
}

#[test]
fn silence_makes_an_investigating_mob_lose_interest() {
    let r = mob_step(MobKind::Skeleton, MobState::Investigate, quiet());
    assert_eq!(r.state, MobState::Idle);
    assert_eq!(r.loudness, LoudnessReset::Zero);
    assert!(r.clear_wander_pause);
}

#[test]
fn arriving_at_the_spot_starts_a_look_around() {
    let s = Senses { at_target: true, patience_left: true, ..quiet() };
    let r = mob_step(MobKind::Zombie, MobState::Investigate, s);
    assert_eq!(r.state, MobState::Investigate);
    assert_eq!(r.look, LookReset::Start);
}

#[test]
fn a_seen_player_is_chased_and_remembered() {
    let s = Senses { visible: true, ..quiet() };
    let r = mob_step(MobKind::Skeleton, MobState::Wander, s);
    assert_eq!(r.state, MobState::Chase);
    assert_eq!(r.aim, Aim::PlayerNow);
    assert!(r.reset_chase_memory);
    // Out of sight, memory keeps it on the last seen spot.
    let lost = Senses { chase_memory_left: true, ..quiet() };
    let r = mob_step(MobKind::Skeleton, MobState::Chase, lost);
    assert_eq!((r.state, r.aim), (MobState::Chase, Aim::Keep));
    // Memory gone: it looks around the last spot.
    let r = mob_step(MobKind::Skeleton, MobState::Chase, quiet());
    assert_eq!(r.state, MobState::Investigate);
    assert_eq!(r.patience, PatienceReset::LastSpot);
}

#[test]
fn a_zombie_in_range_attacks_on_its_cooldown() {
    let s = Senses { visible: true, in_attack_range: true, ..quiet() };
    let r = mob_step(MobKind::Zombie, MobState::Chase, s);
    assert_eq!(r.state, MobState::Attack);
    assert!(r.attack);
    let cooling = Senses { cooldown_ready: false, ..s };
    let r = mob_step(MobKind::Zombie, MobState::Chase, cooling);
    assert_eq!(r.state, MobState::Attack);
    assert!(!r.attack);
    // A skeleton shoots instead, and keeps chasing.
    let r = mob_step(MobKind::Skeleton, MobState::Chase, s);
    assert_eq!(r.state, MobState::Chase);
    assert!(r.shoot);
}

#[test]
fn a_creeper_lights_holds_and_aborts_its_fuse() {
    let near = Senses { visible: true, in_fuse_range: true, beyond_abort: false, ..quiet() };
    let r = mob_step(MobKind::Creeper, MobState::Chase, near);
    assert_eq!((r.state, r.fuse), (MobState::Fuse, FuseStep::Light));
    // Counting down, it is not pulled back into a chase by seeing the player.
    let r = mob_step(MobKind::Creeper, MobState::Fuse, near);
    assert_eq!((r.state, r.fuse), (MobState::Fuse, FuseStep::Burn));
    assert_eq!(r.aim, Aim::Keep);
    // The player retreats past the abort range.
    let away = Senses { visible: true, beyond_abort: true, ..quiet() };
    let r = mob_step(MobKind::Creeper, MobState::Fuse, away);
    assert_eq!((r.state, r.fuse), (MobState::Chase, FuseStep::Abort));
    // Or dies.
    let dead = Senses { player_alive: false, beyond_abort: false, ..quiet() };
    assert_eq!(mob_step(MobKind::Creeper, MobState::Fuse, dead).fuse, FuseStep::Abort);
}

#[test]
fn a_pig_never_attacks() {
    let s = Senses { visible: true, in_attack_range: true, in_fuse_range: true, beyond_abort: false, ..quiet() };
    let r = mob_step(MobKind::Pig, MobState::Idle, s);
    assert!(!r.attack && !r.shoot);
    assert_eq!(r.fuse, FuseStep::Keep);
}
