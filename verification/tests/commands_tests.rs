use waasabi_matrix::commands::parse_command;
use waasabi_matrix::commands::handle;
use waasabi_matrix::commands::Command;
use waasabi_matrix::effects::Effect;
use waasabi_matrix::roster::AdminRoster;

fn admins(users: &[&str]) -> AdminRoster {
    AdminRoster::new(users.iter().map(|u| u.to_string()).collect())
}

fn run(
    roster: &mut AdminRoster,
    sender: &str,
    text: &str,
) -> Vec<Effect> {
    handle(
        roster,
        &"@bot:hs".to_string(),
        &"!room:hs".to_string(),
        &sender.to_string(),
        &text.to_string(),
    )
}

#[test]
fn parse_recognises_each_command() {
    assert_eq!(parse_command(&"!ping".to_string()), Some(Command::Ping));
    assert_eq!(
        parse_command(&"!invite @a:hs".to_string()),
        Some(Command::Invite { user_id: "@a:hs".to_string() })
    );
    assert_eq!(parse_command(&"?op".to_string()), Some(Command::OpAsk));
    assert_eq!(parse_command(&"!op".to_string()), Some(Command::Op { user: None }));
    assert_eq!(
        parse_command(&"!op @a:hs".to_string()),
        Some(Command::Op { user: Some("@a:hs".to_string()) })
    );
    assert_eq!(
        parse_command(&"!create myroom MyRoom".to_string()),
        Some(Command::Create {
            alias: "myroom".to_string(),
            name: "MyRoom".to_string(),
            topic: None,
        })
    );
}

#[test]
fn parse_rejects_wrong_arity_and_unknown_tokens() {
    assert_eq!(parse_command(&"!ping extra".to_string()), None);
    assert_eq!(parse_command(&"!invite".to_string()), None);
    assert_eq!(parse_command(&"!invite a b".to_string()), None);
    assert_eq!(parse_command(&"?op x".to_string()), None);
    assert_eq!(parse_command(&"!op a b".to_string()), None);
    assert_eq!(parse_command(&"!create onlyalias".to_string()), None);
    assert_eq!(parse_command(&"!create a b c".to_string()), None);
    assert_eq!(parse_command(&"!frobnicate".to_string()), None);
    assert_eq!(parse_command(&"hello there".to_string()), None);
    assert_eq!(parse_command(&"".to_string()), None);
    // a trailing space makes an empty argument token
    assert_eq!(parse_command(&"!ping ".to_string()), None);
}

#[test]
fn non_admin_ping_sends_no_reply_and_invokes_nothing() {
    let mut roster = admins(&["@admin:hs"]);
    let effects = run(&mut roster, "@user:hs", "!ping");
    assert!(effects.is_empty());
    assert_eq!(roster.members(), vec!["@admin:hs".to_string()]);
}

#[test]
fn non_admin_never_triggers_any_effect() {
    for text in ["!ping", "!invite @x:hs", "?op", "!op", "!op @x:hs", "!create a b", "chit chat"] {
        let mut roster = admins(&["@admin:hs"]);
        let effects = run(&mut roster, "@user:hs", text);
        assert!(effects.is_empty(), "effect leaked for {:?}", text);
        assert_eq!(roster.members(), vec!["@admin:hs".to_string()]);
    }
}

#[test]
fn admin_ping_pongs() {
    let mut roster = admins(&["@admin:hs"]);
    let effects = run(&mut roster, "@admin:hs", "!ping");
    assert_eq!(
        effects,
        vec![Effect::SendMessage { room_id: "!room:hs".to_string(), body: "PONG!".to_string() }]
    );
}

#[test]
fn admin_invite_invites_the_target() {
    let mut roster = admins(&["@admin:hs"]);
    let effects = run(&mut roster, "@admin:hs", "!invite @friend:hs");
    assert_eq!(
        effects,
        vec![Effect::InviteUser {
            room_id: "!room:hs".to_string(),
            user_id: "@friend:hs".to_string(),
        }]
    );
}

#[test]
fn blank_invite_target_is_a_no_op() {
    let mut roster = admins(&["@admin:hs"]);
    // "!invite " splits into the command and one empty argument
    let effects = run(&mut roster, "@admin:hs", "!invite ");
    assert!(effects.is_empty());
}

#[test]
fn op_ask_lists_the_roster_comma_joined() {
    let mut roster = admins(&["@a:hs", "@b:hs"]);
    let effects = run(&mut roster, "@a:hs", "?op");
    assert_eq!(
        effects,
        vec![Effect::SendMessage {
            room_id: "!room:hs".to_string(),
            body: "Current admins: @a:hs, @b:hs".to_string(),
        }]
    );
}

#[test]
fn bare_op_changes_no_roster_but_pushes_power_levels() {
    let mut roster = admins(&["@a:hs", "@b:hs"]);
    let effects = run(&mut roster, "@a:hs", "!op");
    assert_eq!(roster.members(), vec!["@a:hs".to_string(), "@b:hs".to_string()]);
    assert_eq!(
        effects,
        vec![Effect::SetPowerLevels {
            room_id: "!room:hs".to_string(),
            user_ids: vec!["@a:hs".to_string(), "@b:hs".to_string(), "@bot:hs".to_string()],
        }]
    );
}

#[test]
fn op_with_target_adds_then_acknowledges_then_pushes() {
    let mut roster = admins(&["@a:hs"]);
    let effects = run(&mut roster, "@a:hs", "!op @new:hs");
    assert_eq!(roster.members(), vec!["@a:hs".to_string(), "@new:hs".to_string()]);
    assert_eq!(
        effects,
        vec![
            Effect::SendMessage {
                room_id: "!room:hs".to_string(),
                body: "Added @new:hs".to_string(),
            },
            Effect::SetPowerLevels {
                room_id: "!room:hs".to_string(),
                user_ids: vec![
                    "@a:hs".to_string(),
                    "@new:hs".to_string(),
                    "@bot:hs".to_string(),
                ],
            },
        ]
    );
}

#[test]
fn create_confirms_before_creating_and_invites_the_roster() {
    let mut roster = admins(&["@a:hs", "@b:hs"]);
    let effects = run(&mut roster, "@a:hs", "!create myroom MyRoom");
    assert_eq!(effects.len(), 2);
    match &effects[0] {
        Effect::SendMessage { room_id, body } => {
            assert_eq!(room_id, "!room:hs");
            assert_eq!(
                body,
                "Will create a room named #myroom:rustch.at with the name: MyRoom. You will be invited."
            );
        }
        other => panic!("expected the confirmation first, got {:?}", other),
    }
    match &effects[1] {
        Effect::CreateRoom { alias, name, topic, invite, settings } => {
            assert_eq!(alias, "myroom");
            assert_eq!(name, "MyRoom");
            assert_eq!(*topic, None);
            assert_eq!(invite, &vec!["@a:hs".to_string(), "@b:hs".to_string()]);
            assert!(settings.guest_access_allowed);
            assert!(settings.invite_only);
            assert!(settings.shared_history);
        }
        other => panic!("expected the room creation second, got {:?}", other),
    }
}
