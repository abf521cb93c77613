//! The weighted, depth-gated room selector, checked on concrete
//! catalogs.

use brick_dungeon::fixed::Vec2;
use brick_dungeon::room::{
    select_room, Encounter, Enemy, EnemyEntity, Room, RoomType, Rooms, SelectError, SelectedRooms,
};

fn plain_room(room_type: RoomType, weight: usize) -> Room {
    Room {
        room_type,
        num_exits: 2,
        arena: 0,
        encounters: None,
        weight,
        force_select_depth_min: None,
        force_select_depth_max: None,
        is_select: false,
    }
}

fn gated_room(room_type: RoomType, weight: usize, min: usize, max: usize) -> Room {
    Room {
        force_select_depth_min: Some(min),
        force_select_depth_max: Some(max),
        ..plain_room(room_type, weight)
    }
}

#[test]
fn forced_depth_gating_selects_the_forced_room() {
    // A room whose window closes at depth 5 must be chosen there with
    // probability one, however heavy the competition.
    for _ in 0..200 {
        let mut rooms = Rooms {
            rooms: vec![
                gated_room(RoomType::Boss, 1, 2, 5),
                plain_room(RoomType::Combat, 1_000_000),
            ],
        };
        let mut selected = SelectedRooms::new();
        let r = select_room(&mut selected, &mut rooms, 5, 1);
        assert!(r.is_ok());
        assert!(rooms.rooms[0].is_select);
        assert!(!rooms.rooms[1].is_select);
        assert_eq!(selected.rooms.len(), 1);
        assert!(matches!(selected.rooms[0].room_type, RoomType::Boss));
    }
}

#[test]
fn forced_depth_gating_never_selects_past_the_window() {
    // At depth 6 the window [2, 5] has closed: the gated room can never
    // be drawn again.
    for _ in 0..200 {
        let mut rooms = Rooms {
            rooms: vec![
                gated_room(RoomType::Boss, 1_000_000, 2, 5),
                plain_room(RoomType::Combat, 1),
            ],
        };
        let mut selected = SelectedRooms::new();
        let r = select_room(&mut selected, &mut rooms, 6, 1);
        assert!(r.is_ok());
        assert!(!rooms.rooms[0].is_select);
        assert!(rooms.rooms[1].is_select);
    }
}

#[test]
fn gated_room_inside_its_window_competes_normally() {
    // At depth 3 the window [2, 5] is open but not forced, so either
    // room can win; over many trials the gated room must win at least
    // once.
    let mut gated_wins = 0;
    for _ in 0..500 {
        let mut rooms = Rooms {
            rooms: vec![
                gated_room(RoomType::Treasure, 500, 2, 5),
                plain_room(RoomType::Combat, 500),
            ],
        };
        let mut selected = SelectedRooms::new();
        assert!(select_room(&mut selected, &mut rooms, 3, 1).is_ok());
        if rooms.rooms[0].is_select {
            gated_wins += 1;
        }
    }
    assert!(gated_wins > 0);
}

#[test]
fn weighted_selection_distribution_follows_the_weights() {
    // Rooms weighted [1, 3]: over 10000 trials the second room must win
    // in a ratio statistically consistent with 3:1 (expected 7500, with
    // a generous tolerance of about nine standard deviations).
    let mut second_wins = 0;
    for _ in 0..10_000 {
        let mut rooms = Rooms {
            rooms: vec![plain_room(RoomType::Combat, 1), plain_room(RoomType::Treasure, 3)],
        };
        let mut selected = SelectedRooms::new();
        assert!(select_room(&mut selected, &mut rooms, 0, 1).is_ok());
        if rooms.rooms[1].is_select {
            second_wins += 1;
        }
    }
    assert!(second_wins > 7100, "second room won only {} of 10000", second_wins);
    assert!(second_wins < 7900, "second room won {} of 10000", second_wins);
}

#[test]
fn selection_never_repeats_a_room_within_a_cycle() {
    for _ in 0..200 {
        let mut rooms = Rooms {
            rooms: vec![
                plain_room(RoomType::Combat, 1),
                plain_room(RoomType::Treasure, 1),
                plain_room(RoomType::Store, 1),
            ],
        };
        let mut selected = SelectedRooms::new();
        assert!(select_room(&mut selected, &mut rooms, 0, 2).is_ok());
        let marked = rooms.rooms.iter().filter(|r| r.is_select).count();
        assert_eq!(marked, 2);
        assert_eq!(selected.rooms.len(), 2);
    }
}

#[test]
fn catalog_exhaustion_is_a_detectable_fatal_error() {
    // Two exits wanted, one eligible room: the second draw must fail
    // loudly, never return a silent partial result.
    let mut rooms = Rooms { rooms: vec![plain_room(RoomType::Combat, 5)] };
    let mut selected = SelectedRooms::new();
    let r = select_room(&mut selected, &mut rooms, 0, 2);
    assert_eq!(r, Err(SelectError::NoSelectableRoom));
}

#[test]
fn all_zero_weights_are_a_fatal_error() {
    let mut rooms = Rooms {
        rooms: vec![plain_room(RoomType::Combat, 0), plain_room(RoomType::Treasure, 0)],
    };
    let mut selected = SelectedRooms::new();
    let r = select_room(&mut selected, &mut rooms, 0, 1);
    assert_eq!(r, Err(SelectError::NoSelectableRoom));
}

#[test]
fn more_than_one_forced_candidate_is_a_fatal_error() {
    let mut rooms = Rooms {
        rooms: vec![
            gated_room(RoomType::Boss, 1, 2, 5),
            gated_room(RoomType::PreBoss, 1, 1, 5),
        ],
    };
    let mut selected = SelectedRooms::new();
    let r = select_room(&mut selected, &mut rooms, 5, 1);
    assert_eq!(r, Err(SelectError::TooManyForcedRooms));
    // Nothing was touched.
    assert!(!rooms.rooms[0].is_select);
    assert!(!rooms.rooms[1].is_select);
    assert_eq!(selected.rooms.len(), 0);
}

#[test]
fn skipped_gated_rooms_earn_the_weight_bonus() {
    // The gated room carries weight zero, so the draw always skips it
    // and it must earn +100 weight for the one completed draw.
    let mut rooms = Rooms {
        rooms: vec![
            gated_room(RoomType::Boss, 0, 0, 100),
            plain_room(RoomType::Combat, 5),
        ],
    };
    let mut selected = SelectedRooms::new();
    assert!(select_room(&mut selected, &mut rooms, 1, 1).is_ok());
    assert_eq!(rooms.rooms[0].weight, 100);
    assert!(!rooms.rooms[0].is_select);
    // Ungated rooms never earn the bonus.
    assert!(rooms.rooms[1].is_select);
    assert_eq!(rooms.rooms[1].weight, 5);
}

#[test]
fn a_boosted_gated_room_is_drawn_with_its_bonus_frozen() {
    // Pass one can only draw the plain room (the gated one weighs zero),
    // which boosts the gated room to 100; pass two then must draw it,
    // and its weight stays frozen at the boosted value.
    let mut rooms = Rooms {
        rooms: vec![
            gated_room(RoomType::Boss, 0, 0, 100),
            plain_room(RoomType::Combat, 5),
        ],
    };
    let mut selected = SelectedRooms::new();
    assert!(select_room(&mut selected, &mut rooms, 1, 2).is_ok());
    assert!(rooms.rooms[0].is_select);
    assert!(rooms.rooms[1].is_select);
    assert_eq!(rooms.rooms[0].weight, 100);
    assert_eq!(rooms.rooms[1].weight, 5);
    assert!(matches!(selected.rooms[0].room_type, RoomType::Combat));
    assert!(matches!(selected.rooms[1].room_type, RoomType::Boss));
}

#[test]
fn encounters_are_drawn_and_marked_alongside_the_room() {
    let enemys = vec![
        EnemyEntity { enemy_type: Enemy::Sloth, position: Vec2 { x: 0, y: 0 } },
        EnemyEntity { enemy_type: Enemy::Greed, position: Vec2 { x: 60_000, y: 60_000 } },
    ];
    let mut rooms = Rooms {
        rooms: vec![Room {
            encounters: Some(vec![
                Encounter { enemys: Vec::new(), weight: 0, is_select: false },
                Encounter { enemys: enemys.clone(), weight: 5, is_select: false },
            ]),
            ..plain_room(RoomType::Combat, 1)
        }],
    };
    let mut selected = SelectedRooms::new();
    assert!(select_room(&mut selected, &mut rooms, 0, 1).is_ok());
    // Only the positively weighted encounter can be drawn.
    let encs = rooms.rooms[0].encounters.as_ref().unwrap();
    assert!(!encs[0].is_select);
    assert!(encs[1].is_select);
    let snapshot = selected.rooms[0].encounter.as_ref().unwrap();
    assert_eq!(snapshot.enemys.len(), 2);
    assert!(snapshot.is_select);
    assert_eq!(snapshot.weight, 5);
}

#[test]
fn a_room_with_an_undrawable_encounter_table_is_a_fatal_error() {
    let mut rooms = Rooms {
        rooms: vec![Room {
            encounters: Some(vec![Encounter { enemys: Vec::new(), weight: 0, is_select: false }]),
            ..plain_room(RoomType::Combat, 1)
        }],
    };
    let mut selected = SelectedRooms::new();
    let r = select_room(&mut selected, &mut rooms, 0, 1);
    assert_eq!(r, Err(SelectError::NoSelectableEncounter));
}

#[test]
fn navigation_index_wraps_in_both_directions() {
    let mut selected = SelectedRooms::new();
    selected.increse_index();
    assert_eq!(selected.index, 0);
    selected.decrese_index();
    assert_eq!(selected.index, 0);

    let mut rooms = Rooms {
        rooms: vec![plain_room(RoomType::Combat, 1), plain_room(RoomType::Treasure, 1)],
    };
    assert!(select_room(&mut selected, &mut rooms, 0, 2).is_ok());
    assert_eq!(selected.rooms.len(), 2);
    assert_eq!(selected.index, 0);
    selected.increse_index();
    assert_eq!(selected.index, 1);
    selected.increse_index();
    assert_eq!(selected.index, 0);
    selected.decrese_index();
    assert_eq!(selected.index, 1);
    selected.decrese_index();
    assert_eq!(selected.index, 0);
}
