use rust_server::room::{Room, RoomError, RoomState};
use rust_server::rooms::{room_code_from_seed, RoomManager};

#[test]
fn room_takes_players_until_full() {
    let mut room = Room::new("ABCD".to_string(), 2);
    assert!(room.is_empty());
    assert!(!room.all_ready());
    assert_eq!(room.add_player(7, "Ann".to_string()), Ok(()));
    assert_eq!(room.add_player(7, "Ann".to_string()), Err(RoomError::AlreadyInRoom));
    assert_eq!(room.add_player(3, "Bob".to_string()), Ok(()));
    assert_eq!(room.add_player(9, "Cid".to_string()), Err(RoomError::RoomFull));
    assert_eq!(room.add_player(3, "Bob".to_string()), Err(RoomError::RoomFull));
    assert_eq!(room.player_count(), 2);
    assert_eq!(room.get_player_ids(), vec![3, 7]);
    assert_eq!(room.players[&7].name, "Ann");
    assert!(!room.players[&7].ready);
}

#[test]
fn room_in_progress_takes_nobody() {
    let mut room = Room::new("ABCD".to_string(), 0);
    room.state = RoomState::Playing;
    assert_eq!(room.add_player(1, "Ann".to_string()), Err(RoomError::GameInProgress));
    room.state = RoomState::Ended;
    assert_eq!(room.add_player(1, "Ann".to_string()), Err(RoomError::GameInProgress));
    room.state = RoomState::Waiting;
    assert_eq!(room.add_player(1, "Ann".to_string()), Err(RoomError::RoomFull));
}

#[test]
fn room_is_ready_when_everybody_is() {
    let mut room = Room::new("ABCD".to_string(), 4);
    room.add_player(1, "Ann".to_string()).unwrap();
    room.add_player(2, "Bob".to_string()).unwrap();
    assert!(!room.all_ready());
    assert_eq!(room.set_ready(1, true), Ok(()));
    assert!(!room.all_ready());
    assert_eq!(room.set_ready(2, true), Ok(()));
    assert!(room.all_ready());
    assert_eq!(room.set_ready(5, true), Err(RoomError::NotInRoom));
    assert_eq!(room.set_ready(2, false), Ok(()));
    assert!(!room.all_ready());
    let gone = room.remove_player(2).unwrap();
    assert_eq!(gone.player_id, 2);
    assert_eq!(gone.name, "Bob");
    assert!(room.remove_player(2).is_none());
    assert!(room.all_ready());
}

#[test]
fn room_code_spells_the_seed_in_base_32() {
    assert_eq!(room_code_from_seed(0), "AAAA");
    assert_eq!(room_code_from_seed(1), "BAAA");
    assert_eq!(room_code_from_seed(31), "9AAA");
    assert_eq!(room_code_from_seed(32), "ABAA");
    assert_eq!(room_code_from_seed(8 + 32 * 24 + 1024 * 25 + 32768 * 31), "J239");
    assert_eq!(room_code_from_seed(1 << 20), "AAAA");
    assert_eq!(room_code_from_seed(u128::MAX), "9999");
}

#[test]
fn join_opens_the_room_asked_for() {
    let mut rooms = RoomManager::new(2);
    assert!(!rooms.has_room("HOME"));
    let room = rooms.join_room("HOME", 1, "Ann".to_string(), "XXXX".to_string()).unwrap();
    assert_eq!(room.code, "HOME");
    assert_eq!(room.max_players, 2);
    assert_eq!(room.get_player_ids(), vec![1]);
    assert!(rooms.has_room("HOME"));
    assert!(!rooms.has_room("XXXX"));
    assert_eq!(rooms.get_player_room(1).unwrap().code, "HOME");
    assert_eq!(rooms.get_room_player_ids("HOME"), vec![1]);
    assert_eq!(rooms.get_room_player_ids("NONE"), Vec::<u32>::new());
}

#[test]
fn join_without_code_opens_a_fresh_room() {
    let mut rooms = RoomManager::new(2);
    let room = rooms.join_room("", 1, "Ann".to_string(), "QRST".to_string()).unwrap();
    assert_eq!(room.code, "QRST");
    assert!(rooms.has_room("QRST"));
    assert!(!rooms.has_room(""));
}

#[test]
fn joining_another_room_leaves_the_first() {
    let mut rooms = RoomManager::new(2);
    rooms.join_room("ONE", 1, "Ann".to_string(), "XXXX".to_string()).unwrap();
    rooms.join_room("ONE", 2, "Bob".to_string(), "XXXX".to_string()).unwrap();
    rooms.join_room("TWO", 1, "Ann".to_string(), "XXXX".to_string()).unwrap();
    assert_eq!(rooms.get_room_player_ids("ONE"), vec![2]);
    assert_eq!(rooms.get_room_player_ids("TWO"), vec![1]);
    rooms.join_room("TWO", 2, "Bob".to_string(), "XXXX".to_string()).unwrap();
    assert!(!rooms.has_room("ONE"));
    assert_eq!(rooms.get_room_player_ids("TWO"), vec![1, 2]);
}

#[test]
fn full_room_turns_the_player_down_after_it_left_its_own() {
    let mut rooms = RoomManager::new(1);
    rooms.join_room("ONE", 1, "Ann".to_string(), "XXXX".to_string()).unwrap();
    rooms.join_room("TWO", 2, "Bob".to_string(), "XXXX".to_string()).unwrap();
    let refused = rooms.join_room("ONE", 2, "Bob".to_string(), "XXXX".to_string());
    assert_eq!(refused.err(), Some(RoomError::RoomFull));
    assert!(!rooms.has_room("TWO"));
    assert!(rooms.get_player_room(2).is_none());
    assert_eq!(rooms.get_room_player_ids("ONE"), vec![1]);
}

#[test]
fn leaving_closes_an_empty_room() {
    let mut rooms = RoomManager::new(4);
    rooms.join_room("ONE", 1, "Ann".to_string(), "XXXX".to_string()).unwrap();
    rooms.join_room("ONE", 2, "Bob".to_string(), "XXXX".to_string()).unwrap();
    assert_eq!(rooms.leave_room(3), None);
    assert_eq!(rooms.leave_room(1), Some("ONE".to_string()));
    assert!(rooms.has_room("ONE"));
    assert_eq!(rooms.leave_room(1), None);
    assert_eq!(rooms.leave_room(2), Some("ONE".to_string()));
    assert!(!rooms.has_room("ONE"));
    assert!(rooms.get_room("ONE").is_none());
}

#[test]
fn manager_sets_readiness_in_the_players_room() {
    let mut rooms = RoomManager::new(4);
    assert_eq!(rooms.set_ready(1, true).err(), Some(RoomError::NotInRoom));
    rooms.join_room("ONE", 1, "Ann".to_string(), "XXXX".to_string()).unwrap();
    rooms.join_room("ONE", 2, "Bob".to_string(), "XXXX".to_string()).unwrap();
    let room = rooms.set_ready(1, true).unwrap();
    assert!(room.players[&1].ready);
    assert!(!room.players[&2].ready);
    assert!(!room.all_ready());
    assert!(rooms.set_ready(2, true).unwrap().all_ready());
    rooms.get_player_room_mut(1).unwrap().state = RoomState::Playing;
    assert_eq!(rooms.get_room("ONE").unwrap().state, RoomState::Playing);
    assert!(rooms.get_player_room_mut(9).is_none());
    let late = rooms.join_room("ONE", 3, "Cid".to_string(), "XXXX".to_string());
    assert_eq!(late.err(), Some(RoomError::GameInProgress));
}

#[test]
fn create_room_opens_an_empty_waiting_room() {
    let mut rooms = RoomManager::new(3);
    let room = rooms.create_room("NEWR".to_string());
    assert_eq!(room.code, "NEWR");
    assert_eq!(room.state, RoomState::Waiting);
    assert_eq!(room.max_players, 3);
    assert!(room.is_empty());
    assert!(rooms.has_room("NEWR"));
}
