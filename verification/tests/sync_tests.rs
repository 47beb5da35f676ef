use waasabi_matrix::effects::Effect;
use waasabi_matrix::rooms::StateEvent;
use waasabi_matrix::sync::JoinedRoom;
use waasabi_matrix::sync::SyncState;
use waasabi_matrix::sync::TimelineEvent;

fn new_state(admins: &[&str]) -> SyncState {
    SyncState::new(
        "@bot:hs".to_string(),
        admins.iter().map(|u| u.to_string()).collect(),
    )
}

fn no_rooms() -> Vec<JoinedRoom> {
    Vec::new()
}

#[test]
fn scenario_invite_fails_twice_then_succeeds() {
    let mut st = new_state(&[]);
    st.ingest_invites(&vec!["R1".to_string()]);
    assert_eq!(st.pending_invites(), vec!["R1".to_string()]);

    // first cycle: the join fails
    let effects = st.finish_batch(&vec![false], &no_rooms(), true);
    assert!(effects.is_empty());
    // second cycle: fails again
    let effects = st.finish_batch(&vec![false], &no_rooms(), true);
    assert!(effects.is_empty());
    // third cycle: the join succeeds
    let effects = st.finish_batch(&vec![true], &no_rooms(), true);

    // the room now has a metadata entry and no pending invite remains
    assert!(st.pending_invites().is_empty());
    let rooms = st.rooms.snapshot();
    assert_eq!(rooms.len(), 1);
    assert_eq!(rooms[0].id, "R1");
    assert_eq!(rooms[0].name, None);
    // the successful join is a state change, published once
    assert_eq!(effects.len(), 1);
    match &effects[0] {
        Effect::PublishRooms { rooms } => assert_eq!(rooms[0].id, "R1"),
        other => panic!("expected a publish, got {:?}", other),
    }
}

#[test]
fn metadata_changes_coalesce_into_one_publish() {
    let mut st = new_state(&[]);
    let room = JoinedRoom {
        room_id: "!r:hs".to_string(),
        state_events: vec![
            StateEvent::Name { name: Some("general".to_string()) },
            StateEvent::Topic { topic: "hello".to_string() },
        ],
        timeline_events: vec![],
    };
    let other = JoinedRoom {
        room_id: "!s:hs".to_string(),
        state_events: vec![StateEvent::Name { name: Some("other".to_string()) }],
        timeline_events: vec![],
    };
    let effects = st.finish_batch(&vec![], &vec![room, other], true);
    // three metadata changes over two rooms, exactly one publish, last
    assert_eq!(effects.len(), 1);
    match &effects[0] {
        Effect::PublishRooms { rooms } => {
            assert_eq!(rooms.len(), 2);
            assert_eq!(rooms[0].name.as_deref(), Some("general"));
            assert_eq!(rooms[1].name.as_deref(), Some("other"));
        }
        other => panic!("expected a publish, got {:?}", other),
    }
}

#[test]
fn a_batch_without_changes_publishes_nothing() {
    let mut st = new_state(&["@a:hs"]);
    let room = JoinedRoom {
        room_id: "!r:hs".to_string(),
        state_events: vec![StateEvent::Unknown],
        timeline_events: vec![TimelineEvent::Other],
    };
    let effects = st.finish_batch(&vec![], &vec![room], true);
    assert!(effects.is_empty());
}

#[test]
fn messages_are_relayed_with_the_rooms_metadata() {
    let mut st = new_state(&[]);
    let room = JoinedRoom {
        room_id: "!r:hs".to_string(),
        state_events: vec![StateEvent::Name { name: Some("general".to_string()) }],
        timeline_events: vec![TimelineEvent::Message {
            sender: "@someone:hs".to_string(),
            text: Some("hello world".to_string()),
        }],
    };
    let effects = st.finish_batch(&vec![], &vec![room], true);
    assert_eq!(effects.len(), 2);
    match &effects[0] {
        Effect::RelayMessage { room_id, room_name, sender, text, .. } => {
            assert_eq!(room_id, "!r:hs");
            assert_eq!(room_name.as_deref(), Some("general"));
            assert_eq!(sender, "@someone:hs");
            assert_eq!(text.as_deref(), Some("hello world"));
        }
        other => panic!("expected a relay, got {:?}", other),
    }
    assert!(matches!(&effects[1], Effect::PublishRooms { .. }));
}

#[test]
fn initial_sync_does_not_relay_messages() {
    let mut st = new_state(&[]);
    let room = JoinedRoom {
        room_id: "!r:hs".to_string(),
        state_events: vec![],
        timeline_events: vec![TimelineEvent::Message {
            sender: "@someone:hs".to_string(),
            text: Some("old backlog".to_string()),
        }],
    };
    // handle_messages is off for the initial sync
    let effects = st.finish_batch(&vec![], &vec![room], false);
    assert!(effects.is_empty());
    // the room entry was still created
    assert_eq!(st.rooms.snapshot().len(), 1);
}

#[test]
fn admin_command_in_the_timeline_is_routed() {
    let mut st = new_state(&["@a:hs"]);
    let room = JoinedRoom {
        room_id: "!r:hs".to_string(),
        state_events: vec![],
        timeline_events: vec![TimelineEvent::Message {
            sender: "@a:hs".to_string(),
            text: Some("!op @new:hs".to_string()),
        }],
    };
    let effects = st.finish_batch(&vec![], &vec![room], true);
    assert_eq!(st.roster.members(), vec!["@a:hs".to_string(), "@new:hs".to_string()]);
    // the relay comes first, then the command's own effects
    assert!(matches!(&effects[0], Effect::RelayMessage { .. }));
    assert_eq!(
        effects[1],
        Effect::SendMessage { room_id: "!r:hs".to_string(), body: "Added @new:hs".to_string() }
    );
    match &effects[2] {
        Effect::SetPowerLevels { user_ids, .. } => {
            assert_eq!(
                user_ids,
                &vec!["@a:hs".to_string(), "@new:hs".to_string(), "@bot:hs".to_string()]
            );
        }
        other => panic!("expected the permission push, got {:?}", other),
    }
    assert_eq!(effects.len(), 3);
}

#[test]
fn scenario_non_admin_ping_in_timeline_does_nothing() {
    let mut st = new_state(&["@a:hs"]);
    let room = JoinedRoom {
        room_id: "!r:hs".to_string(),
        state_events: vec![],
        timeline_events: vec![TimelineEvent::Message {
            sender: "@user:hs".to_string(),
            text: Some("!ping".to_string()),
        }],
    };
    let effects = st.finish_batch(&vec![], &vec![room], true);
    // the message is still relayed to the backend, but no reply is sent
    // and no protocol capability is invoked
    assert_eq!(effects.len(), 1);
    assert!(matches!(&effects[0], Effect::RelayMessage { .. }));
    assert_eq!(st.roster.members(), vec!["@a:hs".to_string()]);
}

#[test]
fn admin_joining_a_room_triggers_a_permission_push() {
    let mut st = new_state(&["@a:hs"]);
    let room = JoinedRoom {
        room_id: "!r:hs".to_string(),
        state_events: vec![StateEvent::Member { sender: "@a:hs".to_string(), joined: true }],
        timeline_events: vec![],
    };
    let effects = st.finish_batch(&vec![], &vec![room], true);
    // a membership event is not a metadata change, so nothing is published
    assert_eq!(
        effects,
        vec![Effect::SetPowerLevels {
            room_id: "!r:hs".to_string(),
            user_ids: vec!["@a:hs".to_string(), "@bot:hs".to_string()],
        }]
    );
}

#[test]
fn outsider_joining_triggers_nothing() {
    let mut st = new_state(&["@a:hs"]);
    let room = JoinedRoom {
        room_id: "!r:hs".to_string(),
        state_events: vec![StateEvent::Member {
            sender: "@user:hs".to_string(),
            joined: true,
        }],
        timeline_events: vec![],
    };
    let effects = st.finish_batch(&vec![], &vec![room], true);
    assert!(effects.is_empty());
}

#[test]
fn retries_cover_invites_ingested_in_the_same_batch() {
    let mut st = new_state(&[]);
    st.ingest_invites(&vec!["!old:hs".to_string()]);
    st.finish_batch(&vec![false], &no_rooms(), true);
    // a new invite arrives; the same cycle tries old and new entries
    st.ingest_invites(&vec!["!new:hs".to_string()]);
    let pending = st.pending_invites();
    assert_eq!(pending, vec!["!old:hs".to_string(), "!new:hs".to_string()]);
    let effects = st.finish_batch(&vec![false, true], &no_rooms(), true);
    assert_eq!(st.pending_invites(), vec!["!old:hs".to_string()]);
    assert_eq!(effects.len(), 1);
    assert!(matches!(&effects[0], Effect::PublishRooms { .. }));
}
