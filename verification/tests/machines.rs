//! The choose-state latch and the room-transition pipeline, driven
//! through full cycles.

use brick_dungeon::fixed::Vec2;
use brick_dungeon::room::{Enemy, RoomType, SelectedRoom, SelectedRooms};
use brick_dungeon::transition::{
    builder_for, choose_door, enter_choosing, fade_control, icon_for, icon_position, load_enemys,
    update_loading_data, ChooseState, FadeTimer, LoadingData, LoadingState, RoomBuilder, RoomIcon,
    SpawnKind,
};

fn one_candidate() -> SelectedRooms {
    let mut selected = SelectedRooms::new();
    selected.rooms.push(SelectedRoom {
        room_type: RoomType::Combat,
        num_exits: 2,
        arena: 0,
        encounter: None,
    });
    selected
}

#[test]
fn the_gate_opens_only_on_a_cleared_room() {
    let mut c = ChooseState::PreChoosing;
    enter_choosing(&mut c, 3);
    assert_eq!(c, ChooseState::PreChoosing);
    enter_choosing(&mut c, 0);
    assert_eq!(c, ChooseState::Choosing);
    // Once open it stays open regardless of the count.
    enter_choosing(&mut c, 5);
    assert_eq!(c, ChooseState::Choosing);
}

#[test]
fn door_choice_is_bounds_checked_and_arms_the_fade() {
    let mut c = ChooseState::Choosing;
    let mut l = LoadingState::Ready;
    let mut selected = one_candidate();
    // An out-of-range door index is ignored.
    assert!(!choose_door(&mut c, &mut l, &mut selected, 1));
    assert_eq!(c, ChooseState::Choosing);
    assert_eq!(l, LoadingState::Ready);
    // A valid one records the choice and starts the fade-out.
    assert!(choose_door(&mut c, &mut l, &mut selected, 0));
    assert_eq!(c, ChooseState::Ready);
    assert_eq!(l, LoadingState::FadeOut);
    assert_eq!(selected.index, 0);
}

#[test]
fn door_choice_is_ignored_outside_choosing() {
    let mut c = ChooseState::PreChoosing;
    let mut l = LoadingState::Ready;
    let mut selected = one_candidate();
    assert!(!choose_door(&mut c, &mut l, &mut selected, 0));
    assert_eq!(c, ChooseState::PreChoosing);
    assert_eq!(l, LoadingState::Ready);
}

#[test]
fn a_full_cycle_completes_in_three_ticks() {
    // From (Ready, PreChoosing) with zero enemies, a one-tick fade
    // duration and a zero confirmation target: one enemy-check tick
    // opens the latch, and the two fades take one tick each.
    let mut choose = ChooseState::PreChoosing;
    let mut loading = LoadingState::Ready;
    let mut selected = one_candidate();
    let mut timer = FadeTimer { elapsed: 0, duration: 1 };
    let mut depth: usize = 7;

    // Tick 1: the room is clear, the latch opens, the player picks door 0.
    enter_choosing(&mut choose, 0);
    assert_eq!(choose, ChooseState::Choosing);
    assert!(choose_door(&mut choose, &mut loading, &mut selected, 0));
    assert_eq!((choose, loading), (ChooseState::Ready, LoadingState::FadeOut));

    // Tick 2: the fade-out completes and the room content is swapped.
    let (alpha, fx) = fade_control(
        &mut loading,
        &mut choose,
        &mut timer,
        &mut selected,
        &mut depth,
        1,
    );
    assert_eq!(alpha, 1000);
    assert!(fx.swap_room);
    assert!(!fx.cycle_complete);
    assert_eq!(loading, LoadingState::FadeIn);
    assert_eq!(choose, ChooseState::Ready);
    assert_eq!(depth, 7);

    // Tick 3: the fade-in completes, the depth advances, the choice is
    // cleared and the latch rearms.
    let (alpha2, fx2) = fade_control(
        &mut loading,
        &mut choose,
        &mut timer,
        &mut selected,
        &mut depth,
        1,
    );
    assert_eq!(alpha2, 0);
    assert!(!fx2.swap_room);
    assert!(fx2.cycle_complete);
    assert_eq!(loading, LoadingState::Ready);
    assert_eq!(choose, ChooseState::PreChoosing);
    assert_eq!(depth, 8);
    assert_eq!(selected.rooms.len(), 0);
    assert_eq!(selected.index, 0);
}

#[test]
fn fade_opacity_interpolates_over_the_duration() {
    let mut choose = ChooseState::Ready;
    let mut loading = LoadingState::FadeOut;
    let mut selected = SelectedRooms::new();
    let mut timer = FadeTimer { elapsed: 0, duration: 10 };
    let mut depth: usize = 0;
    let (alpha, fx) = fade_control(
        &mut loading,
        &mut choose,
        &mut timer,
        &mut selected,
        &mut depth,
        5,
    );
    assert_eq!(alpha, 500);
    assert!(!fx.swap_room && !fx.cycle_complete);
    assert_eq!(loading, LoadingState::FadeOut);
    assert_eq!(timer.elapsed, 5);
    // The fade-in runs the opacity the other way.
    let mut loading2 = LoadingState::FadeIn;
    let mut timer2 = FadeTimer { elapsed: 0, duration: 10 };
    let (alpha2, _) = fade_control(
        &mut loading2,
        &mut choose,
        &mut timer2,
        &mut selected,
        &mut depth,
        2,
    );
    assert_eq!(alpha2, 800);
}

#[test]
fn asset_readiness_is_debounced_by_confirmation_frames() {
    let mut data = LoadingData::new(2);
    // Pending assets keep resetting the counter.
    assert_eq!(update_loading_data(&mut data, 3, true), None);
    assert_eq!(data.confirmation_frames_count, 0);
    assert_eq!(update_loading_data(&mut data, 0, false), None);
    assert_eq!(data.confirmation_frames_count, 0);
    // Two consecutive clean frames are needed.
    assert_eq!(update_loading_data(&mut data, 0, true), None);
    assert_eq!(data.confirmation_frames_count, 1);
    assert_eq!(update_loading_data(&mut data, 0, true), Some(LoadingState::FadeIn));
    // A single readiness blip never satisfies a target of two.
    let mut blip = LoadingData::new(2);
    assert_eq!(update_loading_data(&mut blip, 0, true), None);
    assert_eq!(update_loading_data(&mut blip, 1, true), None);
    assert_eq!(blip.confirmation_frames_count, 0);
    // A zero target trusts the first clean frame.
    let mut eager = LoadingData::new(0);
    assert_eq!(update_loading_data(&mut eager, 0, true), Some(LoadingState::FadeIn));
}

#[test]
fn every_room_type_has_a_builder_and_an_icon() {
    assert_eq!(builder_for(RoomType::Boss), RoomBuilder::Boss);
    assert_eq!(builder_for(RoomType::Combat), RoomBuilder::Combat);
    assert_eq!(builder_for(RoomType::PostBoss), RoomBuilder::PostBoss);
    assert_eq!(builder_for(RoomType::PreBoss), RoomBuilder::PreBoss);
    assert_eq!(builder_for(RoomType::Start), RoomBuilder::Start);
    assert_eq!(builder_for(RoomType::Treasure), RoomBuilder::Treasure);
    assert_eq!(builder_for(RoomType::Store), RoomBuilder::Store);

    assert_eq!(icon_for(RoomType::Combat), RoomIcon::Combat);
    assert_eq!(icon_for(RoomType::Treasure), RoomIcon::Treasure);
    assert_eq!(icon_for(RoomType::Boss), RoomIcon::Boss);
    assert_eq!(icon_for(RoomType::PreBoss), RoomIcon::Combat);
    assert_eq!(icon_for(RoomType::PostBoss), RoomIcon::Combat);
    assert_eq!(icon_for(RoomType::Start), RoomIcon::Combat);
    assert_eq!(icon_for(RoomType::Store), RoomIcon::Store);

    assert_eq!(icon_position(0), Some(Vec2 { x: -240_000, y: 345_000 }));
    assert_eq!(icon_position(1), Some(Vec2 { x: 150_000, y: 345_000 }));
    assert_eq!(icon_position(2), None);
}

#[test]
fn enemy_spawns_dispatch_by_archetype() {
    let mut selected = SelectedRooms::new();
    selected.rooms.push(SelectedRoom {
        room_type: RoomType::Boss,
        num_exits: 1,
        arena: 0,
        encounter: Some(brick_dungeon::room::Encounter {
            enemys: vec![
                brick_dungeon::room::EnemyEntity {
                    enemy_type: Enemy::BossA,
                    position: Vec2 { x: 0, y: 0 },
                },
                brick_dungeon::room::EnemyEntity {
                    enemy_type: Enemy::Lust,
                    position: Vec2 { x: 10_000, y: 20_000 },
                },
            ],
            weight: 1,
            is_select: true,
        }),
    });
    let spawns = load_enemys(&selected);
    assert_eq!(spawns.len(), 2);
    // Every archetype gets its own event; the first boss included.
    assert_eq!(spawns[0].kind, SpawnKind::BossA);
    assert_eq!(spawns[0].pos, Vec2 { x: 0, y: 0 });
    assert_eq!(spawns[1].kind, SpawnKind::Lust);
    assert_eq!(spawns[1].pos, Vec2 { x: 10_000, y: 20_000 });

    // A room without an encounter spawns nothing.
    let bare = one_candidate();
    assert_eq!(load_enemys(&bare).len(), 0);
}
