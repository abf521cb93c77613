//! The room-transition pipeline and the choose-state latch.
//!
//! Two small state machines drive dungeon progression. The choose-state
//! latch waits in `PreChoosing` until the room's enemies are cleared,
//! triggers the room selector on entering `Choosing`, and records the
//! player's door choice by moving to `Ready`. The loading machine then
//! fades the screen out, swaps the room content, fades back in, advances
//! the depth counter and rearms the latch. An asset-wait state debounces
//! readiness signals with a confirmation-frame counter.

use crate::fixed::{Vec2, SCALE};
use crate::room::{Enemy, RoomType, SelectedRooms};
use vstd::prelude::*;

verus! {

/// The phases of the room-transition pipeline.
#[derive(Clone, Copy, Debug, PartialEq, Eq, Hash, Structural)]
pub enum LoadingState {
    Ready,
    Loading,
    FadeOut,
    FadeIn,
}

/// The phases of the choose-state latch.
#[derive(Clone, Copy, Debug, PartialEq, Eq, Hash, Structural)]
pub enum ChooseState {
    PreChoosing,
    Choosing,
    Ready,
}

/// The asset-wait bookkeeping: how many consecutive frames everything
/// has looked ready, and how many such frames are demanded before the
/// readiness signal is trusted.
#[derive(Clone, Copy, Debug, PartialEq, Eq, Structural)]
pub struct LoadingData {
    pub confirmation_frames_target: usize,
    pub confirmation_frames_count: usize,
}

impl LoadingData {
    /// Fresh bookkeeping demanding the given number of confirmation
    /// frames.
    pub fn new(confirmation_frames_target: usize) -> (r: Self)
        ensures
            r.confirmation_frames_target == confirmation_frames_target,
            r.confirmation_frames_count == 0,
    {
        LoadingData { confirmation_frames_target, confirmation_frames_count: 0 }
    }
}

/// The full-screen fade timer: how far the current fade has progressed,
/// out of a fixed duration.
#[derive(Clone, Copy, Debug, PartialEq, Eq, Structural)]
pub struct FadeTimer {
    pub elapsed: u64,
    pub duration: u64,
}

/// What the latch does on an enemy-count check: it opens exactly when it
/// was waiting and the room is cleared.
pub open spec fn choose_after_enemy_check(c: ChooseState, enemy_count: int) -> ChooseState {
    if c == ChooseState::PreChoosing && enemy_count == 0 {
        ChooseState::Choosing
    } else {
        c
    }
}

/// Whether a door-sensor event is accepted: only while the player is
/// choosing, and only for an index within the candidate list.
pub open spec fn door_accepted(c: ChooseState, sel_len: int, index: int) -> bool {
    c == ChooseState::Choosing && 0 <= index < sel_len
}

/// Whether a fade tick of `dt` completes the fade.
pub open spec fn fade_finished(elapsed: int, dt: int, duration: int) -> bool {
    elapsed + dt >= duration
}

/// The loading state after a fade tick: a completed fade-out starts the
/// fade-in, a completed fade-in returns the pipeline to rest.
pub open spec fn loading_after_fade(l: LoadingState, finished: bool) -> LoadingState {
    if !finished {
        l
    } else if l == LoadingState::FadeOut {
        LoadingState::FadeIn
    } else {
        LoadingState::Ready
    }
}

/// The latch state after a fade tick: a completed fade-in rearms it.
pub open spec fn choose_after_fade(c: ChooseState, l: LoadingState, finished: bool) -> ChooseState {
    if finished && l == LoadingState::FadeIn {
        ChooseState::PreChoosing
    } else {
        c
    }
}

/// The overlay opacity during a fade, in milli-units: rising while
/// fading out, falling while fading in.
pub open spec fn fade_alpha_spec(l: LoadingState, elapsed: int, duration: int) -> int {
    let fraction = if elapsed >= duration {
        SCALE as int
    } else {
        (elapsed * (SCALE as int)) / duration
    };
    if l == LoadingState::FadeOut {
        fraction
    } else {
        (SCALE as int) - fraction
    }
}

/// Advances the choose-state latch by one enemy-count check: while the
/// latch waits in `PreChoosing`, a cleared room (zero enemies) opens it.
pub fn enter_choosing(choose_state: &mut ChooseState, enemy_count: usize)
    ensures
        *final(choose_state) == choose_after_enemy_check(*old(choose_state), enemy_count as int),
{
    if *choose_state == ChooseState::PreChoosing && enemy_count == 0 {
        *choose_state = ChooseState::Choosing;
    }
}

/// Records the player's door choice. The index from the door sensor is
/// authoritative, checked only against the candidate-list bounds; an
/// accepted choice arms the fade-out.
pub fn choose_door(
    choose_state: &mut ChooseState,
    loading_state: &mut LoadingState,
    selected_rooms: &mut SelectedRooms,
    index: usize,
) -> (accepted: bool)
    ensures
        accepted == door_accepted(
            *old(choose_state),
            old(selected_rooms).rooms@.len() as int,
            index as int,
        ),
        final(selected_rooms).rooms@ == old(selected_rooms).rooms@,
        accepted ==> {
            &&& *final(choose_state) == ChooseState::Ready
            &&& *final(loading_state) == LoadingState::FadeOut
            &&& final(selected_rooms).index == index
        },
        !accepted ==> {
            &&& *final(choose_state) == *old(choose_state)
            &&& *final(loading_state) == *old(loading_state)
            &&& final(selected_rooms).index == old(selected_rooms).index
        },
{
    if *choose_state == ChooseState::Choosing && index < selected_rooms.rooms.len() {
        selected_rooms.index = index;
        *choose_state = ChooseState::Ready;
        *loading_state = LoadingState::FadeOut;
        true
    } else {
        false
    }
}

/// What the rest of the game must do after a fade tick.
#[derive(Clone, Copy, Debug, PartialEq, Eq, Structural)]
pub struct TransitionEffects {
    /// The fade-out completed: despawn the old room, reset the paddle to
    /// its home position, and invoke the dispatched builders.
    pub swap_room: bool,
    /// The fade-in completed: the cycle is over and play resumes.
    pub cycle_complete: bool,
}

/// Ticks the full-screen fade while the pipeline is fading out or in,
/// and returns the overlay opacity plus the effects the caller must
/// apply. A completed fade-out swaps the room and starts the fade-in; a
/// completed fade-in advances the depth counter, clears the selected
/// rooms and rearms the choose-state latch. The fade systems only run in
/// the two fade states, so any other state is left out by contract.
pub fn fade_control(
    loading_state: &mut LoadingState,
    choose_state: &mut ChooseState,
    timer: &mut FadeTimer,
    selected_rooms: &mut SelectedRooms,
    current_room: &mut usize,
    dt: u64,
) -> (r: (i64, TransitionEffects))
    requires
        *old(loading_state) == LoadingState::FadeOut || *old(loading_state)
            == LoadingState::FadeIn,
        old(timer).duration >= 1,
        old(timer).elapsed <= old(timer).duration,
        dt <= 1_000_000,
        old(timer).duration <= 1_000_000,
        *old(current_room) < usize::MAX,
    ensures
        ({
            let finished = fade_finished(
                old(timer).elapsed as int,
                dt as int,
                old(timer).duration as int,
            );
            &&& *final(loading_state) == loading_after_fade(*old(loading_state), finished)
            &&& *final(choose_state) == choose_after_fade(
                *old(choose_state),
                *old(loading_state),
                finished,
            )
            &&& final(timer).duration == old(timer).duration
            &&& (finished ==> final(timer).elapsed == 0)
            &&& (!finished ==> final(timer).elapsed == old(timer).elapsed + dt)
            &&& r.0 == fade_alpha_spec(
                *old(loading_state),
                old(timer).elapsed + dt,
                old(timer).duration as int,
            )
            &&& r.1.swap_room == (finished && *old(loading_state) == LoadingState::FadeOut)
            &&& r.1.cycle_complete == (finished && *old(loading_state) == LoadingState::FadeIn)
            &&& (r.1.cycle_complete ==> *final(current_room) == *old(current_room) + 1
                && final(selected_rooms).rooms@.len() == 0 && final(selected_rooms).index == 0)
            &&& (!r.1.cycle_complete ==> *final(current_room) == *old(current_room)
                && *final(selected_rooms) == *old(selected_rooms))
        }),
{
    let was_fade_out: bool = *loading_state == LoadingState::FadeOut;
    let finished: bool = timer.elapsed + dt >= timer.duration;
    let clamped: u64 = if timer.elapsed + dt >= timer.duration {
        timer.duration
    } else {
        timer.elapsed + dt
    };
    // Overlay opacity from the clamped fraction of the fade duration.
    let num: u64 = clamped * 1000;
    let fraction: i64 = (num / timer.duration) as i64;
    proof {
        if clamped < timer.duration {
            assert(clamped * 1000 < timer.duration * 1000) by (nonlinear_arith)
                requires
                    clamped < timer.duration,
            ;
            assert((clamped * 1000) / (timer.duration as int) < 1000) by (nonlinear_arith)
                requires
                    clamped * 1000 < timer.duration * 1000 && timer.duration >= 1,
            ;
            assert((clamped * 1000) / (timer.duration as int) >= 0) by (nonlinear_arith)
                requires
                    clamped >= 0 && timer.duration >= 1,
            ;
        } else {
            assert(clamped == timer.duration);
            crate::fixed::lemma_tdiv_exact(1000, timer.duration as int);
            assert((timer.duration as int) * 1000 == 1000 * (timer.duration as int));
            assert(((timer.duration as int) * 1000) / (timer.duration as int) == 1000);
        }
    }
    let alpha: i64 = if was_fade_out {
        fraction
    } else {
        1000 - fraction
    };
    let mut fx = TransitionEffects { swap_room: false, cycle_complete: false };
    if finished {
        timer.elapsed = 0;
        if was_fade_out {
            *loading_state = LoadingState::FadeIn;
            fx.swap_room = true;
        } else {
            *loading_state = LoadingState::Ready;
            *choose_state = ChooseState::PreChoosing;
            *current_room = *current_room + 1;
            selected_rooms.rooms = Vec::new();
            selected_rooms.index = 0;
            fx.cycle_complete = true;
        }
    } else {
        timer.elapsed = timer.elapsed + dt;
    }
    (alpha, fx)
}

/// Polls the asset-wait state once: any pending asset or uncompiled
/// pipeline resets the confirmation counter; otherwise the counter grows,
/// and once it meets the target the pipeline may fade in. Returns the
/// state to transition to, if any.
pub fn update_loading_data(
    loading_data: &mut LoadingData,
    pending_assets: usize,
    pipelines_ready: bool,
) -> (next: Option<LoadingState>)
    requires
        old(loading_data).confirmation_frames_count < usize::MAX,
    ensures
        final(loading_data).confirmation_frames_target == old(
            loading_data,
        ).confirmation_frames_target,
        (pending_assets > 0 || !pipelines_ready) ==> final(loading_data).confirmation_frames_count
            == 0 && next is None,
        (pending_assets == 0 && pipelines_ready) ==> {
            &&& final(loading_data).confirmation_frames_count == old(
                loading_data,
            ).confirmation_frames_count + 1
            &&& (next == Some(LoadingState::FadeIn) <==> old(
                loading_data,
            ).confirmation_frames_count + 1 >= old(loading_data).confirmation_frames_target)
            &&& (next is None <==> old(loading_data).confirmation_frames_count + 1 < old(
                loading_data,
            ).confirmation_frames_target)
        },
{
    if pending_assets > 0 || !pipelines_ready {
        loading_data.confirmation_frames_count = 0;
        None
    } else {
        loading_data.confirmation_frames_count = loading_data.confirmation_frames_count + 1;
        if loading_data.confirmation_frames_count >= loading_data.confirmation_frames_target {
            Some(LoadingState::FadeIn)
        } else {
            None
        }
    }
}

/// The icon sprites a selected room can advertise.
#[derive(Clone, Copy, Debug, PartialEq, Eq, Structural)]
pub enum RoomIcon {
    Combat,
    Treasure,
    Boss,
    Store,
}

/// The icon a room of the given type advertises.
pub open spec fn icon_of(room_type: RoomType) -> RoomIcon {
    match room_type {
        RoomType::Combat => RoomIcon::Combat,
        RoomType::Treasure => RoomIcon::Treasure,
        RoomType::Boss => RoomIcon::Boss,
        RoomType::PreBoss => RoomIcon::Combat,
        RoomType::PostBoss => RoomIcon::Combat,
        RoomType::Start => RoomIcon::Combat,
        RoomType::Store => RoomIcon::Store,
    }
}

/// Picks the icon for a selected room's type. The match is exhaustive,
/// so an unmapped room type cannot compile.
pub fn icon_for(room_type: RoomType) -> (r: RoomIcon)
    ensures
        r == icon_of(room_type),
{
    match room_type {
        RoomType::Combat => RoomIcon::Combat,
        RoomType::Treasure => RoomIcon::Treasure,
        RoomType::Boss => RoomIcon::Boss,
        RoomType::PreBoss => RoomIcon::Combat,
        RoomType::PostBoss => RoomIcon::Combat,
        RoomType::Start => RoomIcon::Combat,
        RoomType::Store => RoomIcon::Store,
    }
}

/// The screen anchor for the candidate icon at the given position in the
/// choice list; only two doors exist.
pub fn icon_position(index: usize) -> (r: Option<Vec2>)
    ensures
        index == 0 ==> r == Some(Vec2 { x: -240_000i64, y: 345_000i64 }),
        index == 1 ==> r == Some(Vec2 { x: 150_000i64, y: 345_000i64 }),
        index >= 2 ==> r is None,
{
    if index == 0 {
        Some(Vec2 { x: -240_000, y: 345_000 })
    } else if index == 1 {
        Some(Vec2 { x: 150_000, y: 345_000 })
    } else {
        None
    }
}

/// The room builders the fade-out dispatch can invoke.
#[derive(Clone, Copy, Debug, PartialEq, Eq, Structural)]
pub enum RoomBuilder {
    Boss,
    Combat,
    PostBoss,
    PreBoss,
    Start,
    Treasure,
    Store,
}

/// The builder in charge of a room type.
pub open spec fn builder_of(room_type: RoomType) -> RoomBuilder {
    match room_type {
        RoomType::Boss => RoomBuilder::Boss,
        RoomType::Combat => RoomBuilder::Combat,
        RoomType::PostBoss => RoomBuilder::PostBoss,
        RoomType::PreBoss => RoomBuilder::PreBoss,
        RoomType::Start => RoomBuilder::Start,
        RoomType::Treasure => RoomBuilder::Treasure,
        RoomType::Store => RoomBuilder::Store,
    }
}

/// Dispatches a selected room's type to its builder. The match is
/// exhaustive, so an unmapped room type cannot compile.
pub fn builder_for(room_type: RoomType) -> (r: RoomBuilder)
    ensures
        r == builder_of(room_type),
{
    match room_type {
        RoomType::Boss => RoomBuilder::Boss,
        RoomType::Combat => RoomBuilder::Combat,
        RoomType::PostBoss => RoomBuilder::PostBoss,
        RoomType::PreBoss => RoomBuilder::PreBoss,
        RoomType::Start => RoomBuilder::Start,
        RoomType::Treasure => RoomBuilder::Treasure,
        RoomType::Store => RoomBuilder::Store,
    }
}

/// The spawn events the enemy dispatch can emit: one distinct event per
/// enemy archetype.
#[derive(Clone, Copy, Debug, PartialEq, Eq, Structural)]
pub enum SpawnKind {
    Sloth,
    BossA,
    Envy,
    Gluttony,
    Greed,
    Pride,
    Wrath,
    Lust,
}

/// The spawn event for an enemy archetype.
pub open spec fn spawn_kind_of(enemy: Enemy) -> SpawnKind {
    match enemy {
        Enemy::Sloth => SpawnKind::Sloth,
        Enemy::BossA => SpawnKind::BossA,
        Enemy::Envy => SpawnKind::Envy,
        Enemy::Gluttony => SpawnKind::Gluttony,
        Enemy::Greed => SpawnKind::Greed,
        Enemy::Pride => SpawnKind::Pride,
        Enemy::Wrath => SpawnKind::Wrath,
        Enemy::Lust => SpawnKind::Lust,
    }
}

/// One enemy spawn the transition emits when the new room is built.
#[derive(Clone, Copy, Debug, PartialEq, Eq, Structural)]
pub struct EnemySpawn {
    pub kind: SpawnKind,
    pub pos: Vec2,
}

/// Emits one spawn event per enemy of the chosen room's encounter, each
/// dispatched to its archetype's spawner; a room without an encounter,
/// or an out-of-range choice, spawns nothing.
#[verifier::loop_isolation(false)]
pub fn load_enemys(selected_rooms: &SelectedRooms) -> (r: Vec<EnemySpawn>)
    ensures
        ({
            let idx = selected_rooms.index as int;
            if 0 <= idx < selected_rooms.rooms@.len()
                && selected_rooms.rooms@[idx].encounter is Some {
                let enemys = selected_rooms.rooms@[idx].encounter.unwrap().enemys@;
                &&& r@.len() == enemys.len()
                &&& forall|i: int|
                    0 <= i < enemys.len() ==> #[trigger] r@[i] == (EnemySpawn {
                        kind: spawn_kind_of(enemys[i].enemy_type),
                        pos: enemys[i].position,
                    })
            } else {
                r@.len() == 0
            }
        }),
{
    let mut events: Vec<EnemySpawn> = Vec::new();
    if selected_rooms.index < selected_rooms.rooms.len() {
        let room = &selected_rooms.rooms[selected_rooms.index];
        if let Some(encounter) = &room.encounter {
            let ghost enemys = encounter.enemys@;
            let mut i: usize = 0;
            while i < encounter.enemys.len()
                invariant
                    0 <= i <= enemys.len(),
                    events@.len() == i as int,
                    forall|j: int|
                        0 <= j < i ==> #[trigger] events@[j] == (EnemySpawn {
                            kind: spawn_kind_of(enemys[j].enemy_type),
                            pos: enemys[j].position,
                        }),
                decreases enemys.len() - i,
            {
                let e = &encounter.enemys[i];
                let kind: SpawnKind = match e.enemy_type {
                    Enemy::Sloth => SpawnKind::Sloth,
                    Enemy::BossA => SpawnKind::BossA,
                    Enemy::Envy => SpawnKind::Envy,
                    Enemy::Gluttony => SpawnKind::Gluttony,
                    Enemy::Greed => SpawnKind::Greed,
                    Enemy::Pride => SpawnKind::Pride,
                    Enemy::Wrath => SpawnKind::Wrath,
                    Enemy::Lust => SpawnKind::Lust,
                };
                events.push(EnemySpawn { kind, pos: e.position });
                i = i + 1;
            }
        }
    }
    events
}

/// State-machine terminal reachability: from `Ready` (loading) and
/// `PreChoosing` (choose) with zero enemies present, the two machines
/// deterministically run the whole cycle `Choosing`, `Ready`, `FadeOut`,
/// `FadeIn`, `Ready`, `PreChoosing` in finite ticks: with a fade
/// duration of one tick, one enemy-check tick opens the latch, the
/// accepted door choice arms the fade, and each of the two fades
/// completes in exactly one tick.
pub proof fn lemma_cycle_terminal_reachability(dt: int, duration: int, sel_len: int)
    requires
        dt == duration,
        duration >= 1,
        sel_len >= 1,
    ensures
        choose_after_enemy_check(ChooseState::PreChoosing, 0) == ChooseState::Choosing,
        door_accepted(ChooseState::Choosing, sel_len, 0),
        fade_finished(0, dt, duration),
        loading_after_fade(LoadingState::FadeOut, true) == LoadingState::FadeIn,
        choose_after_fade(ChooseState::Ready, LoadingState::FadeOut, true) == ChooseState::Ready,
        loading_after_fade(LoadingState::FadeIn, true) == LoadingState::Ready,
        choose_after_fade(ChooseState::Ready, LoadingState::FadeIn, true)
            == ChooseState::PreChoosing,
{
}

/// The fade timer is a terminating countdown: ticking `dt` at a time
/// from zero, the fade is unfinished for every tick that starts strictly
/// below the duration and finishes on the first tick that reaches it —
/// so a fade always completes after exactly `ceil(duration / dt)` ticks.
pub proof fn lemma_fade_terminates(duration: int, dt: int, n: int)
    requires
        dt >= 1,
        duration >= 1,
        n >= 1,
        n * dt >= duration,
        (n - 1) * dt < duration,
    ensures
        forall|m: int| 1 <= m < n ==> !fade_finished(#[trigger] ((m - 1) * dt), dt, duration),
        fade_finished((n - 1) * dt, dt, duration),
{
    assert forall|m: int|
        1 <= m < n implies !fade_finished(#[trigger] ((m - 1) * dt), dt, duration) by {
        assert((m - 1) * dt + dt == m * dt) by (nonlinear_arith);
        assert(m * dt <= (n - 1) * dt) by (nonlinear_arith)
            requires
                m <= n - 1 && dt >= 1,
        ;
    }
    assert((n - 1) * dt + dt == n * dt) by (nonlinear_arith);
}

} // verus!
