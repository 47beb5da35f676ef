use waasabi_matrix::rooms::RoomInfo;
use waasabi_matrix::rooms::RoomStateStore;
use waasabi_matrix::rooms::StateEvent;

fn name_event(name: &str) -> StateEvent {
    StateEvent::Name { name: Some(name.to_string()) }
}

#[test]
fn store_auto_creates_an_entry_on_first_event() {
    let mut store = RoomStateStore::new();
    let room = "!r:hs".to_string();
    let changed = store.apply(&room, &name_event("general"));
    assert!(changed);
    assert_eq!(store.len(), 1);
    let info = store.info_for(&room).unwrap();
    assert_eq!(info.id, "!r:hs");
    assert_eq!(info.name.as_deref(), Some("general"));
    assert_eq!(info.alias, None);
    assert_eq!(info.topic, None);
}

#[test]
fn applying_the_same_event_twice_gives_identical_room_info() {
    let mut once = RoomStateStore::new();
    let mut twice = RoomStateStore::new();
    let room = "!r:hs".to_string();
    let ev = StateEvent::Topic { topic: "rust talk".to_string() };
    once.apply(&room, &ev);
    twice.apply(&room, &ev);
    twice.apply(&room, &ev);
    assert_eq!(once.snapshot(), twice.snapshot());
}

#[test]
fn alias_event_may_clear_the_alias() {
    let mut store = RoomStateStore::new();
    let room = "!r:hs".to_string();
    store.apply(&room, &StateEvent::CanonicalAlias { alias: Some("#a:hs".to_string()) });
    assert_eq!(store.info_for(&room).unwrap().alias.as_deref(), Some("#a:hs"));
    let changed = store.apply(&room, &StateEvent::CanonicalAlias { alias: None });
    assert!(changed);
    assert_eq!(store.info_for(&room).unwrap().alias, None);
}

#[test]
fn membership_and_unknown_events_do_not_count_as_changes() {
    let mut store = RoomStateStore::new();
    let room = "!r:hs".to_string();
    let member = StateEvent::Member { sender: "@a:hs".to_string(), joined: true };
    assert!(!store.apply(&room, &member));
    assert!(!store.apply(&room, &StateEvent::Unknown));
    // the entry was still auto-created, with default metadata
    let info = store.info_for(&room).unwrap();
    assert_eq!(info.name, None);
    assert_eq!(info.alias, None);
    assert_eq!(info.topic, None);
}

#[test]
fn events_overwrite_only_their_own_field() {
    let mut store = RoomStateStore::new();
    let room = "!r:hs".to_string();
    store.apply(&room, &name_event("general"));
    store.apply(&room, &StateEvent::Topic { topic: "hello".to_string() });
    store.apply(&room, &StateEvent::CanonicalAlias { alias: Some("#g:hs".to_string()) });
    store.apply(&room, &name_event("renamed"));
    let info = store.info_for(&room).unwrap();
    assert_eq!(info.name.as_deref(), Some("renamed"));
    assert_eq!(info.topic.as_deref(), Some("hello"));
    assert_eq!(info.alias.as_deref(), Some("#g:hs"));
}

#[test]
fn snapshot_lists_rooms_in_observation_order() {
    let mut store = RoomStateStore::new();
    store.apply(&"!b:hs".to_string(), &name_event("bravo"));
    store.apply(&"!a:hs".to_string(), &name_event("alpha"));
    let rooms = store.snapshot();
    assert_eq!(rooms.len(), 2);
    assert_eq!(rooms[0].id, "!b:hs");
    assert_eq!(rooms[1].id, "!a:hs");
    assert_eq!(
        rooms[0],
        RoomInfo {
            id: "!b:hs".to_string(),
            name: Some("bravo".to_string()),
            alias: None,
            topic: None,
        }
    );
}

#[test]
fn ensure_room_is_first_write_wins() {
    let mut store = RoomStateStore::new();
    let room = "!r:hs".to_string();
    store.apply(&room, &name_event("general"));
    let created = store.ensure_room(&room);
    assert!(!created);
    assert_eq!(store.info_for(&room).unwrap().name.as_deref(), Some("general"));
}
