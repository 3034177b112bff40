use spring_websocket::room::{Room, RoomError, RoomManager};

fn new_id() -> u128 {
    uuid::Uuid::new_v4().as_u128()
}

#[test]
fn test_room_creation() {
    let room = Room::new("test_room".to_string());
    assert_eq!(room.id, "test_room");
    assert_eq!(room.connection_count(), 0);
}

#[test]
fn test_room_join_leave() {
    let mut room = Room::new("test_room".to_string());
    let connection_id = new_id();

    // Join room
    assert!(room.join(connection_id).is_ok());
    assert_eq!(room.connection_count(), 1);
    assert!(room.has_connection(&connection_id));

    // Leave room
    assert!(room.leave(&connection_id).is_ok());
    assert_eq!(room.connection_count(), 0);
    assert!(!room.has_connection(&connection_id));
}

#[test]
fn test_room_metadata() {
    let mut room = Room::new("test_room".to_string());

    // Set metadata
    assert!(room.set_metadata("key1".to_string(), "value1".to_string()).is_ok());
    assert_eq!(room.get_metadata("key1"), Some("value1".to_string()));

    // Get all metadata
    let all_metadata = room.get_all_metadata();
    let found = all_metadata.iter().find(|(k, _)| k == "key1").map(|(_, v)| v);
    assert_eq!(found, Some(&"value1".to_string()));
}

#[test]
fn test_room_manager() {
    let mut manager = RoomManager::new();
    let room_id = "room1".to_string();

    // Create room
    assert!(manager.create_room(room_id.clone()).is_ok());
    assert!(manager.room_exists(&room_id));

    // Try to create duplicate room
    assert!(manager.create_room(room_id.clone()).is_err());

    // List rooms
    let rooms = manager.list_rooms();
    assert_eq!(rooms.len(), 1);
    assert_eq!(rooms[0], room_id);

    // Delete room
    assert!(manager.delete_room(&room_id).is_ok());
    assert!(!manager.room_exists(&room_id));
}

#[test]
fn test_room_manager_join_leave() {
    let mut manager = RoomManager::new();
    let room_id = "chat_room".to_string();
    let connection_id = new_id();

    // Join creates room automatically
    assert!(manager.join_room(room_id.clone(), connection_id).is_ok());
    assert!(manager.room_exists(&room_id));
    assert_eq!(manager.get_room_connections(&room_id).len(), 1);

    // Leave room
    assert!(manager.leave_room(&room_id, &connection_id).is_ok());
    // Room should be deleted when empty
    assert!(!manager.room_exists(&room_id));
}

#[test]
fn room_join_twice_is_refused() {
    let mut room = Room::new("r".to_string());
    assert!(room.join(7).is_ok());
    match room.join(7) {
        Err(RoomError::ConnectionAlreadyInRoom(c)) => assert_eq!(c, 7),
        other => panic!("unexpected {:?}", other),
    }
    assert_eq!(room.connection_count(), 1);
}

#[test]
fn room_leave_of_stranger_is_refused() {
    let mut room = Room::new("r".to_string());
    match room.leave(&9) {
        Err(RoomError::ConnectionNotInRoom(c)) => assert_eq!(c, 9),
        other => panic!("unexpected {:?}", other),
    }
}

#[test]
fn room_metadata_overwrite_keeps_one_entry() {
    let mut room = Room::new("r".to_string());
    room.set_metadata("k".to_string(), "a".to_string()).unwrap();
    room.set_metadata("k".to_string(), "b".to_string()).unwrap();
    room.set_metadata("j".to_string(), "c".to_string()).unwrap();
    assert_eq!(room.get_metadata("k"), Some("b".to_string()));
    assert_eq!(room.get_metadata("missing"), None);
    assert_eq!(
        room.get_all_metadata(),
        vec![("k".to_string(), "b".to_string()), ("j".to_string(), "c".to_string())]
    );
}

#[test]
fn manager_errors_name_the_room() {
    let mut manager = RoomManager::new();
    match manager.delete_room(&"nope".to_string()) {
        Err(RoomError::RoomNotFound(id)) => assert_eq!(id, "nope"),
        other => panic!("unexpected {:?}", other),
    }
    manager.create_room("a".to_string()).unwrap();
    match manager.create_room("a".to_string()) {
        Err(RoomError::RoomAlreadyExists(id)) => assert_eq!(id, "a"),
        other => panic!("unexpected {:?}", other),
    }
    match manager.leave_room(&"b".to_string(), &1) {
        Err(RoomError::RoomNotFound(id)) => assert_eq!(id, "b"),
        other => panic!("unexpected {:?}", other),
    }
    match manager.leave_room(&"a".to_string(), &1) {
        Err(RoomError::ConnectionNotInRoom(c)) => assert_eq!(c, 1),
        other => panic!("unexpected {:?}", other),
    }
    // the empty room made by create_room stays after a refused leave
    assert!(manager.room_exists(&"a".to_string()));
}

#[test]
fn manager_join_twice_is_refused() {
    let mut manager = RoomManager::new();
    manager.join_room("a".to_string(), 3).unwrap();
    match manager.join_room("a".to_string(), 3) {
        Err(RoomError::ConnectionAlreadyInRoom(c)) => assert_eq!(c, 3),
        other => panic!("unexpected {:?}", other),
    }
    assert_eq!(manager.get_room_connections(&"a".to_string()).len(), 1);
}

#[test]
fn leaving_one_of_two_keeps_the_room() {
    let mut manager = RoomManager::new();
    manager.join_room("a".to_string(), 1).unwrap();
    manager.join_room("a".to_string(), 2).unwrap();
    manager.leave_room(&"a".to_string(), &1).unwrap();
    assert!(manager.room_exists(&"a".to_string()));
    assert!(!manager.is_room_empty(&"a".to_string()));
    let room = manager.get_room(&"a".to_string()).unwrap();
    assert!(room.has_connection(&manager, &2));
    assert!(!room.has_connection(&manager, &1));
}

#[test]
fn leave_all_rooms_drops_emptied_rooms_only() {
    let mut manager = RoomManager::new();
    manager.join_room("a".to_string(), 1).unwrap();
    manager.join_room("b".to_string(), 1).unwrap();
    manager.join_room("b".to_string(), 2).unwrap();
    manager.create_room("c".to_string()).unwrap();
    manager.leave_all_rooms(&1);
    assert!(!manager.room_exists(&"a".to_string()));
    assert!(manager.room_exists(&"b".to_string()));
    assert!(manager.room_exists(&"c".to_string()));
    assert_eq!(manager.room_count(), 2);
    assert!(!manager.get_room_connections(&"b".to_string()).contains(&1));
    assert!(manager.is_room_empty(&"c".to_string()));
    assert!(manager.is_room_empty(&"unknown".to_string()));
    assert!(manager.get_room_connections(&"unknown".to_string()).is_empty());
}

#[test]
fn join_then_leave_new_room_restores_registry() {
    let mut manager = RoomManager::new();
    manager.create_room("keep".to_string()).unwrap();
    manager.join_room("tmp".to_string(), 5).unwrap();
    manager.leave_room(&"tmp".to_string(), &5).unwrap();
    let mut rooms = manager.list_rooms();
    rooms.sort();
    assert_eq!(rooms, vec!["keep".to_string()]);
}

#[test]
fn room_handles_share_the_managed_room() {
    let mut manager = RoomManager::new();
    let room_id = "lobby".to_string();
    manager.create_room(room_id.clone()).unwrap();
    let first = manager.get_room(&room_id).unwrap();
    let second = manager.get_room(&room_id).unwrap();
    assert_eq!(first.id, "lobby");
    first.join(&mut manager, 7).unwrap();
    // seen through the registry and through the other handle
    assert!(manager.get_room_connections(&room_id).contains(&7));
    assert!(second.has_connection(&manager, &7));
    assert_eq!(second.connection_count(&manager), 1);
    match second.join(&mut manager, 7) {
        Err(RoomError::ConnectionAlreadyInRoom(c)) => assert_eq!(c, 7),
        other => panic!("unexpected {:?}", other),
    }
    second.set_metadata(&mut manager, "k".to_string(), "v".to_string()).unwrap();
    assert_eq!(first.get_metadata(&manager, "k"), Some("v".to_string()));
    assert_eq!(manager.get_room(&room_id).unwrap().get_all_metadata(&manager).len(), 1);
    // leaving through a handle keeps the room, even when empty
    second.leave(&mut manager, &7).unwrap();
    assert!(manager.room_exists(&room_id));
    assert!(first.get_connections(&manager).is_empty());
    match first.leave(&mut manager, &7) {
        Err(RoomError::ConnectionNotInRoom(c)) => assert_eq!(c, 7),
        other => panic!("unexpected {:?}", other),
    }
}

#[test]
fn handle_on_deleted_room_finds_none() {
    let mut manager = RoomManager::new();
    let room_id = "gone".to_string();
    manager.create_room(room_id.clone()).unwrap();
    let handle = manager.get_room(&room_id).unwrap();
    manager.delete_room(&room_id).unwrap();
    assert!(manager.get_room(&room_id).is_none());
    match handle.join(&mut manager, 1) {
        Err(RoomError::RoomNotFound(r)) => assert_eq!(r, "gone"),
        other => panic!("unexpected {:?}", other),
    }
    assert_eq!(handle.connection_count(&manager), 0);
    assert_eq!(handle.get_metadata(&manager, "k"), None);
    assert!(!manager.room_exists(&room_id));
}
