use rooms::errors::RoomError;
use rooms::models::{NewOccupancy, NewRoom};
use rooms::store::Store;

fn new_room(name: &str, code: &str, minutes: u64) -> NewRoom {
    NewRoom {
        name: name.to_string(),
        room_id: code.to_string(),
        capacity: "8".to_string(),
        time_limit: minutes,
        link: String::new(),
        comments: String::new(),
    }
}

fn new_occupancy(room: u128, until: i64, title: &str) -> NewOccupancy {
    NewOccupancy {
        occupied_room_id: room,
        occupied_until: until,
        meeting_title: title.to_string(),
        comments: String::new(),
    }
}

#[test]
fn create_returns_the_stored_room() {
    let mut store = Store::new();
    let room = store.create_room(new_room("Atlas", "A1", 30), 7).unwrap();
    assert_eq!(room.id, 7);
    assert_eq!(room.name, "Atlas");
    assert_eq!(room.room_id, "A1");
    assert_eq!(room.capacity, "8");
    assert_eq!(room.time_limit, "00:30:00");
    assert_eq!(room.link, "");
    assert_eq!(room.comments, "");
}

#[test]
fn create_with_taken_name_fails_whatever_the_code() {
    let mut store = Store::new();
    store.create_room(new_room("Atlas", "A1", 30), 1).unwrap();
    // Same name, fresh code.
    let err = store.create_room(new_room("Atlas", "B2", 30), 2).unwrap_err();
    assert!(matches!(err, RoomError::NameExists(_)));
    // Same name and same code: the name conflict wins.
    let err = store.create_room(new_room("Atlas", "A1", 30), 3).unwrap_err();
    assert!(matches!(err, RoomError::NameExists(_)));
}

#[test]
fn create_with_unique_name_but_taken_code_fails() {
    let mut store = Store::new();
    store.create_room(new_room("Atlas", "A1", 30), 1).unwrap();
    let err = store.create_room(new_room("Borealis", "A1", 30), 2).unwrap_err();
    assert!(matches!(err, RoomError::IdExists(_)));
}

#[test]
fn create_with_colliding_identifier_is_internal() {
    let mut store = Store::new();
    store.create_room(new_room("Atlas", "A1", 30), 1).unwrap();
    let err = store.create_room(new_room("Borealis", "B2", 30), 1).unwrap_err();
    assert!(matches!(err, RoomError::Internal(_)));
}

#[test]
fn occupy_missing_room_fails_not_found() {
    let mut store = Store::new();
    let err = store.occupy(new_occupancy(99, 1000, "standup")).unwrap_err();
    assert!(matches!(err, RoomError::NotFound(_)));
}

#[test]
fn occupy_active_room_fails_occupied() {
    let mut store = Store::new();
    store.create_room(new_room("Atlas", "A1", 30), 7).unwrap();
    store.occupy(new_occupancy(7, 1000, "standup")).unwrap();
    let err = store.occupy(new_occupancy(7, 2000, "retro")).unwrap_err();
    assert!(matches!(err, RoomError::Occupied(_)));
}

#[test]
fn occupy_success_shows_in_active_rooms() {
    let mut store = Store::new();
    store.create_room(new_room("Atlas", "A1", 30), 7).unwrap();
    let active = store.occupy(new_occupancy(7, 1000, "standup")).unwrap();
    assert_eq!(active.id, 7);
    assert_eq!(active.name, "Atlas");
    assert!(active.is_active);
    assert_eq!(active.occupied_until, 1000);
    assert_eq!(active.meeting_title, "standup");
    let rows = store.active_rooms();
    assert_eq!(rows.len(), 1);
    assert_eq!(rows[0].id, 7);
    assert_eq!(rows[0].meeting_title, "standup");
}

#[test]
fn occupancy_identifiers_follow_the_sequence() {
    let mut store = Store::new();
    store.create_room(new_room("Atlas", "A1", 30), 1).unwrap();
    store.create_room(new_room("Borealis", "B2", 60), 2).unwrap();
    let first = store.occupy(new_occupancy(1, 1000, "standup")).unwrap();
    let second = store.occupy(new_occupancy(2, 2000, "retro")).unwrap();
    let ledger = store.list_occupancies();
    assert_eq!(ledger.len(), 2);
    assert_eq!(ledger[0].id, 1);
    assert_eq!(ledger[1].id, 2);
    assert_eq!(first.occupied_until, 1000);
    assert_eq!(second.occupied_until, 2000);
}

#[test]
fn free_unoccupied_room_fails_not_occupied() {
    let mut store = Store::new();
    store.create_room(new_room("Atlas", "A1", 30), 7).unwrap();
    let err = store.free(7).unwrap_err();
    assert!(matches!(err, RoomError::NotOccupied(_)));
}

#[test]
fn free_missing_room_fails_not_found() {
    let mut store = Store::new();
    let err = store.free(99).unwrap_err();
    assert!(matches!(err, RoomError::NotFound(_)));
}

#[test]
fn free_succeeds_once_and_only_once() {
    let mut store = Store::new();
    store.create_room(new_room("Atlas", "A1", 30), 7).unwrap();
    store.occupy(new_occupancy(7, 1000, "standup")).unwrap();
    store.free(7).unwrap();
    let err = store.free(7).unwrap_err();
    assert!(matches!(err, RoomError::NotOccupied(_)));
}

#[test]
fn serialized_occupy_burst_has_one_winner() {
    // The store serializes conflicting writes; of several occupy calls on
    // one fresh room, exactly the first succeeds.
    let mut store = Store::new();
    store.create_room(new_room("Atlas", "A1", 30), 7).unwrap();
    let mut successes = 0;
    let mut occupied_errors = 0;
    for attempt in 0..5 {
        match store.occupy(new_occupancy(7, 1000 + attempt, "standup")) {
            Ok(_) => successes += 1,
            Err(RoomError::Occupied(_)) => occupied_errors += 1,
            Err(other) => panic!("unexpected error: {:?}", other),
        }
    }
    assert_eq!(successes, 1);
    assert_eq!(occupied_errors, 4);
}

#[test]
fn views_partition_the_rooms_at_every_observation() {
    let mut store = Store::new();
    store.create_room(new_room("Atlas", "A1", 30), 1).unwrap();
    store.create_room(new_room("Borealis", "B2", 60), 2).unwrap();
    store.create_room(new_room("Ceres", "C3", 90), 3).unwrap();
    assert_partition(&store, 3);
    store.occupy(new_occupancy(2, 1000, "standup")).unwrap();
    assert_partition(&store, 3);
    store.occupy(new_occupancy(1, 2000, "retro")).unwrap();
    assert_partition(&store, 3);
    store.free(2).unwrap();
    assert_partition(&store, 3);
}

fn assert_partition(store: &Store, total: usize) {
    let state = store.current_state();
    let available: Vec<u128> = state.available.iter().map(|r| r.id).collect();
    let active: Vec<u128> = state.active.iter().map(|r| r.id).collect();
    assert_eq!(available.len() + active.len(), total);
    for id in &available {
        assert!(!active.contains(id));
    }
    let all: Vec<u128> = store.rooms.iter().map(|r| r.id).collect();
    for id in &all {
        assert!(available.contains(id) ^ active.contains(id));
    }
}

#[test]
fn current_state_matches_the_two_views() {
    let mut store = Store::new();
    store.create_room(new_room("Atlas", "A1", 30), 1).unwrap();
    store.create_room(new_room("Borealis", "B2", 60), 2).unwrap();
    store.occupy(new_occupancy(1, 1000, "standup")).unwrap();
    let state = store.current_state();
    let available = store.available_rooms();
    let active = store.active_rooms();
    assert_eq!(state.available.len(), available.len());
    assert_eq!(state.active.len(), active.len());
    assert_eq!(state.available[0].id, available[0].id);
    assert_eq!(state.active[0].id, active[0].id);
}

#[test]
fn single_room_looks_up_by_identifier() {
    let mut store = Store::new();
    store.create_room(new_room("Atlas", "A1", 30), 7).unwrap();
    store.occupy(new_occupancy(7, 1000, "standup")).unwrap();
    // Occupancy state does not matter for the lookup.
    let room = store.single_room(7).unwrap();
    assert_eq!(room.name, "Atlas");
    let err = store.single_room(8).unwrap_err();
    assert!(matches!(err, RoomError::NotFound(_)));
}

#[test]
fn scenario_atlas_moves_between_the_views() {
    let mut store = Store::new();
    let room = store.create_room(new_room("Atlas", "A1", 30), 7).unwrap();
    assert_eq!(room.time_limit, "00:30:00");
    let available = store.available_rooms();
    assert!(available.iter().any(|r| r.name == "Atlas"));

    let until = 1_700_000_000 + 30 * 60;
    store.occupy(new_occupancy(7, until, "planning")).unwrap();
    let available = store.available_rooms();
    assert!(!available.iter().any(|r| r.name == "Atlas"));
    let active = store.active_rooms();
    let row = active.iter().find(|r| r.name == "Atlas").unwrap();
    assert_eq!(row.meeting_title, "planning");
    assert_eq!(row.occupied_until, until);

    store.free(7).unwrap();
    let available = store.available_rooms();
    assert!(available.iter().any(|r| r.name == "Atlas"));
    assert!(store.active_rooms().is_empty());
}
