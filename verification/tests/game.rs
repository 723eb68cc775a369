use bitsy_dialog::game::{
    set_starting_room, to_dpad, AvatarInfo, Dpad, GameInfo, GridPos, PlayerState, RoomInfo,
};

fn fresh_state() -> PlayerState {
    PlayerState {
        avatar: String::new(),
        pos_x: 0,
        pos_y: 0,
        room: 0,
        room_id: String::new(),
        palette: "0".to_string(),
        room_dirty: false,
        tiles: Vec::new(),
    }
}

fn sample_game() -> GameInfo {
    GameInfo {
        rooms: vec![
            RoomInfo {
                id: "0".to_string(),
                palette_id: None,
                tiles: vec!["0".to_string(); 4],
            },
            RoomInfo {
                id: "hall".to_string(),
                palette_id: Some("p1".to_string()),
                tiles: vec![
                    "0".to_string(),
                    "wall".to_string(),
                    "ghost".to_string(),
                    "wall".to_string(),
                ],
            },
        ],
        tile_ids: vec!["wall".to_string(), "floor".to_string()],
        avatar: Some(AvatarInfo {
            id: "A".to_string(),
            position: Some(GridPos { x: 3, y: 5 }),
            room_id: Some("hall".to_string()),
        }),
    }
}

#[test]
fn set_starting_room_places_the_avatar() {
    let mut st = fresh_state();
    let game = sample_game();
    set_starting_room(&mut st, &game);
    assert_eq!(st.avatar, "A");
    assert_eq!((st.pos_x, st.pos_y), (3, 5));
    assert_eq!(st.room, 1);
    assert_eq!(st.room_id, "hall");
    assert_eq!(st.palette, "p1");
    assert!(st.room_dirty);
    // The empty cell and the unknown "ghost" tile are skipped.
    assert_eq!(st.tiles, vec![(1u8, "wall".to_string()), (3u8, "wall".to_string())]);
}

#[test]
fn set_room_with_unknown_id_changes_nothing() {
    let mut st = fresh_state();
    let game = sample_game();
    st.set_room(&game, "nowhere".to_string());
    assert_eq!(st, fresh_state());
}

#[test]
fn set_room_without_palette_keeps_the_old_one() {
    let mut st = fresh_state();
    st.palette = "old".to_string();
    let game = sample_game();
    st.set_room(&game, "0".to_string());
    assert_eq!(st.room, 0);
    assert_eq!(st.palette, "old");
    assert!(st.tiles.is_empty());
    assert!(st.room_dirty);
}

#[test]
fn missing_avatar_leaves_the_state_alone() {
    let mut st = fresh_state();
    let mut game = sample_game();
    game.avatar = None;
    set_starting_room(&mut st, &game);
    assert_eq!(st, fresh_state());
}

#[test]
fn avatar_without_a_room_keeps_position_only() {
    let mut st = fresh_state();
    let mut game = sample_game();
    game.avatar.as_mut().unwrap().room_id = None;
    set_starting_room(&mut st, &game);
    assert_eq!(st.avatar, "A");
    assert_eq!((st.pos_x, st.pos_y), (3, 5));
    assert_eq!(st.room, 0);
    assert!(!st.room_dirty);
}

#[test]
fn stick_pushes_map_to_directions() {
    let none = Dpad { up: false, down: false, left: false, right: false };
    assert_eq!(to_dpad(0, 200), Dpad { up: true, ..none });
    assert_eq!(to_dpad(0, -200), Dpad { down: true, ..none });
    assert_eq!(to_dpad(200, 0), Dpad { right: true, ..none });
    assert_eq!(to_dpad(-200, 0), Dpad { left: true, ..none });
}

#[test]
fn dead_zone_and_diagonals_stay_neutral() {
    let none = Dpad { up: false, down: false, left: false, right: false };
    assert_eq!(to_dpad(50, 50), none);
    assert_eq!(to_dpad(0, 0), none);
    // An exact diagonal dominates in no axis.
    assert_eq!(to_dpad(150, 150), none);
    // A slightly taller push goes vertical.
    assert_eq!(to_dpad(150, 151), Dpad { up: true, ..none });
}
