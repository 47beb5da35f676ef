use waasabi_matrix::backend::_url;
use waasabi_matrix::backend::BackendConfig;
use waasabi_matrix::control::control_effect;
use waasabi_matrix::control::ControlError;
use waasabi_matrix::control::ControlRequest;
use waasabi_matrix::effects::Effect;
use waasabi_matrix::ids::TransactionIds;
use waasabi_matrix::power_levels::compute_event_levels;
use waasabi_matrix::power_levels::compute_user_levels;
use waasabi_matrix::power_levels::PowerLevel;
use waasabi_matrix::roster::AdminRoster;

#[test]
fn transaction_ids_count_up_from_one() {
    let mut ids = TransactionIds::new();
    assert_eq!(ids.next_id(), "1");
    assert_eq!(ids.next_id(), "2");
    for _ in 0..7 {
        ids.next_id();
    }
    assert_eq!(ids.next_id(), "10");
}

#[test]
fn urls_join_base_and_path_with_a_slash() {
    assert_eq!(_url("http://backend", "auth/local"), "http://backend/auth/local");
    assert_eq!(_url("", "p"), "/p");
    let cfg = BackendConfig {
        host: "http://backend".to_string(),
        user: "bot".to_string(),
        password: "SECRET-REDACTED".to_string(),
    };
    assert_eq!(_url(&cfg.host, "events"), "http://backend/events");
}

#[test]
fn control_requests_need_the_shared_secret() {
    let roster = AdminRoster::new(vec!["@a:hs".to_string()]);
    let secret = "letmein".to_string();
    let bad = ControlRequest::Invite {
        api_key: "wrong".to_string(),
        user_id: "@u:hs".to_string(),
        room_id: "#room:hs".to_string(),
    };
    assert_eq!(control_effect(&bad, &secret, &roster), Err(ControlError::Forbidden));
    let good = ControlRequest::Invite {
        api_key: "letmein".to_string(),
        user_id: "@u:hs".to_string(),
        room_id: "#room:hs".to_string(),
    };
    assert_eq!(
        control_effect(&good, &secret, &roster),
        Ok(Effect::InviteUser {
            room_id: "#room:hs".to_string(),
            user_id: "@u:hs".to_string(),
        })
    );
}

#[test]
fn control_room_creation_invites_the_roster() {
    let roster = AdminRoster::new(vec!["@a:hs".to_string(), "@b:hs".to_string()]);
    let secret = "letmein".to_string();
    let req = ControlRequest::CreateRoom {
        api_key: "letmein".to_string(),
        alias: "lobby".to_string(),
        name: "Lobby".to_string(),
        topic: Some("welcome".to_string()),
    };
    match control_effect(&req, &secret, &roster) {
        Ok(Effect::CreateRoom { alias, name, topic, invite, settings }) => {
            assert_eq!(alias, "lobby");
            assert_eq!(name, "Lobby");
            assert_eq!(topic.as_deref(), Some("welcome"));
            assert_eq!(invite, vec!["@a:hs".to_string(), "@b:hs".to_string()]);
            assert!(settings.invite_only);
        }
        other => panic!("expected a room creation, got {:?}", other),
    }
}

fn level(key: &str, level: u32) -> PowerLevel {
    PowerLevel { key: key.to_string(), level }
}

#[test]
fn promoted_users_reach_admin_level_and_others_keep_theirs() {
    let current = vec![level("@mod:hs", 50), level("@quiet:hs", 0)];
    let promote = vec!["@new:hs".to_string(), "@mod:hs".to_string()];
    let users = compute_user_levels(&current, &promote);
    assert_eq!(
        users,
        vec![level("@mod:hs", 100), level("@quiet:hs", 0), level("@new:hs", 100)]
    );
}

#[test]
fn event_levels_keep_the_rooms_overrides_and_pin_the_rest() {
    let current = vec![level("m.room.name", 75), level("m.room.custom", 1)];
    let events = compute_event_levels(&current);
    assert_eq!(
        events,
        vec![
            level("m.room.avatar", 50),
            level("m.room.canonical_alias", 50),
            level("m.room.encrypted", 100),
            level("m.room.history_visibility", 100),
            level("m.room.name", 75),
            level("m.room.power_levels", 100),
            level("m.room.server_acl", 100),
            level("m.room.tombstone", 100),
        ]
    );
}
