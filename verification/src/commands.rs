//! Parsing and routing of admin chat commands.
//!
//! A message is split on single spaces; the first token picks the command,
//! the remaining tokens are its arguments, with a fixed arity per command.
//! A parse failure, a wrong arity or a sender outside the admin roster
//! produces no command and no effect.

use vstd::prelude::*;
use vstd::string::StrSliceExecFns;
use vstd::string::StringExecFns;
use crate::effects::Effect;
use crate::effects::EffectV;
use crate::effects::default_room_settings;
use crate::effects::spec_default_room_settings;
use crate::roster::AdminRoster;

verus! {

/// Split on every single space; empty tokens are kept, and even the empty
/// text yields one (empty) token.
pub open spec fn spec_split(s: Seq<char>) -> Seq<Seq<char>>
    decreases s.len(),
{
    if s.len() == 0 {
        seq![Seq::<char>::empty()]
    } else if s[0] == ' ' {
        seq![Seq::<char>::empty()] + spec_split(s.drop_first())
    } else {
        let rest = spec_split(s.drop_first());
        seq![seq![s[0]] + rest[0]] + rest.drop_first()
    }
}

/// Splitting always yields at least one token.
pub proof fn lemma_split_nonempty(s: Seq<char>)
    ensures
        spec_split(s).len() >= 1,
    decreases s.len(),
{
    if s.len() == 0 {
    } else {
        lemma_split_nonempty(s.drop_first());
    }
}

/// The tokens still to come from `rest` while `cur` characters of the
/// current token are already read.
spec fn split_state(cur: Seq<char>, rest: Seq<char>) -> Seq<Seq<char>> {
    seq![cur + spec_split(rest)[0]] + spec_split(rest).drop_first()
}

/// Split a message on single spaces, as `spec_split` describes.
pub fn split_spaces(s: &String) -> (r: Vec<String>)
    ensures
        r@.map_values(|t: String| t@) == spec_split(s@),
        r@.len() >= 1,
{
    let text = s.as_str();
    let n = text.unicode_len();
    let mut out: Vec<String> = Vec::new();
    let mut start: usize = 0;
    let mut i: usize = 0;
    proof {
        assert(s@.skip(0) =~= s@);
        assert(s@.subrange(0, 0) =~= Seq::<char>::empty());
        lemma_split_nonempty(s@);
        assert(split_state(Seq::<char>::empty(), s@) =~= spec_split(s@));
    }
    while i < n
        invariant
            n == s@.len(),
            text@ == s@,
            start <= i <= n,
            spec_split(s@) =~= out@.map_values(|t: String| t@) + split_state(
                s@.subrange(start as int, i as int),
                s@.skip(i as int),
            ),
        decreases n - i,
    {
        let ghost cur = s@.subrange(start as int, i as int);
        let ghost rest = s@.skip(i as int);
        proof {
            assert(rest.len() > 0);
            assert(rest[0] == s@[i as int]);
            assert(rest.drop_first() =~= s@.skip(i + 1 as int));
            lemma_split_nonempty(rest.drop_first());
        }
        let c = text.get_char(i);
        if c == ' ' {
            let token = text.substring_char(start, i).to_owned();
            out.push(token);
            proof {
                // the space closes the current token
                assert(spec_split(rest) =~= seq![Seq::<char>::empty()] + spec_split(
                    rest.drop_first(),
                ));
                assert(split_state(cur, rest) =~= seq![cur] + split_state(
                    Seq::<char>::empty(),
                    rest.drop_first(),
                ));
                assert(s@.subrange(i + 1 as int, i + 1 as int) =~= Seq::<char>::empty());
                assert(spec_split(s@) =~= out@.map_values(|t: String| t@) + split_state(
                    s@.subrange(i + 1 as int, i + 1 as int),
                    s@.skip(i + 1 as int),
                ));
            }
            start = i + 1;
        } else {
            proof {
                // the character extends the current token
                assert(spec_split(rest) =~= seq![seq![rest[0]] + spec_split(rest.drop_first())[0]]
                    + spec_split(rest.drop_first()).drop_first());
                assert(cur + spec_split(rest)[0] =~= s@.subrange(start as int, i + 1 as int)
                    + spec_split(rest.drop_first())[0]);
                assert(split_state(cur, rest) =~= split_state(
                    s@.subrange(start as int, i + 1 as int),
                    s@.skip(i + 1 as int),
                ));
            }
        }
        i = i + 1;
    }
    let token = text.substring_char(start, n).to_owned();
    out.push(token);
    proof {
        assert(s@.skip(n as int) =~= Seq::<char>::empty());
        assert(split_state(s@.subrange(start as int, n as int), s@.skip(n as int)) =~= seq![
            s@.subrange(start as int, n as int),
        ]);
        assert(out@.map_values(|t: String| t@) =~= spec_split(s@));
    }
    out
}

/// An admin command, one of a closed set.
#[derive(Debug, PartialEq, Eq)]
pub enum Command {
    /// Ping-pong with the bot.
    Ping,
    /// Invite a user to the current room.
    Invite { user_id: String },
    /// Ask for the current list of admins.
    OpAsk,
    /// Push admin permissions, adding the named user to the roster first.
    Op { user: Option<String> },
    /// Create a new room.
    Create { alias: String, name: String, topic: Option<String> },
}

/// Mathematical image of a `Command`.
pub ghost enum CommandV {
    Ping,
    Invite { user_id: Seq<char> },
    OpAsk,
    Op { user: Option<Seq<char>> },
    Create { alias: Seq<char>, name: Seq<char>, topic: Option<Seq<char>> },
}

impl View for Command {
    type V = CommandV;

    open spec fn view(&self) -> CommandV {
        match self {
            Command::Ping => CommandV::Ping,
            Command::Invite { user_id } => CommandV::Invite { user_id: user_id@ },
            Command::OpAsk => CommandV::OpAsk,
            Command::Op { user } => CommandV::Op {
                user: crate::rooms::opt_view(*user),
            },
            Command::Create { alias, name, topic } => CommandV::Create {
                alias: alias@,
                name: name@,
                topic: crate::rooms::opt_view(*topic),
            },
        }
    }
}

/// Which command a message is, if any: the first token picks the variant,
/// and the argument count must fit it exactly.
pub open spec fn spec_parse(s: Seq<char>) -> Option<CommandV> {
    let toks = spec_split(s);
    let cmd = toks[0];
    let nargs = toks.len() - 1;
    if cmd == "!ping"@ && nargs == 0 {
        Some(CommandV::Ping)
    } else if cmd == "!invite"@ && nargs == 1 {
        Some(CommandV::Invite { user_id: toks[1] })
    } else if cmd == "?op"@ && nargs == 0 {
        Some(CommandV::OpAsk)
    } else if cmd == "!op"@ && nargs == 0 {
        Some(CommandV::Op { user: None })
    } else if cmd == "!op"@ && nargs == 1 {
        Some(CommandV::Op { user: Some(toks[1]) })
    } else if cmd == "!create"@ && nargs == 2 {
        Some(CommandV::Create { alias: toks[1], name: toks[2], topic: None })
    } else {
        None
    }
}

/// Parse a message into a command, as `spec_parse` describes.
pub fn parse_command(text: &String) -> (r: Option<Command>)
    ensures
        match r {
            Some(c) => spec_parse(text@) == Some(c@),
            None => spec_parse(text@) is None,
        },
{
    let toks = split_spaces(text);
    let nargs = toks.len() - 1;
    proof {
        assert(toks@.map_values(|t: String| t@)[0] == toks@[0]@);
    }
    if toks[0] == String::from_str("!ping") && nargs == 0 {
        Some(Command::Ping)
    } else if toks[0] == String::from_str("!invite") && nargs == 1 {
        proof {
            assert(toks@.map_values(|t: String| t@)[1] == toks@[1]@);
        }
        Some(Command::Invite { user_id: toks[1].clone() })
    } else if toks[0] == String::from_str("?op") && nargs == 0 {
        Some(Command::OpAsk)
    } else if toks[0] == String::from_str("!op") && nargs == 0 {
        Some(Command::Op { user: None })
    } else if toks[0] == String::from_str("!op") && nargs == 1 {
        proof {
            assert(toks@.map_values(|t: String| t@)[1] == toks@[1]@);
        }
        Some(Command::Op { user: Some(toks[1].clone()) })
    } else if toks[0] == String::from_str("!create") && nargs == 2 {
        proof {
            assert(toks@.map_values(|t: String| t@)[1] == toks@[1]@);
            assert(toks@.map_values(|t: String| t@)[2] == toks@[2]@);
        }
        Some(Command::Create { alias: toks[1].clone(), name: toks[2].clone(), topic: None })
    } else {
        None
    }
}

/// The names joined by a separator, in order.
pub open spec fn spec_join(names: Seq<Seq<char>>, sep: Seq<char>) -> Seq<char>
    decreases names.len(),
{
    if names.len() == 0 {
        Seq::empty()
    } else if names.len() == 1 {
        names[0]
    } else {
        spec_join(names.drop_last(), sep) + sep + names.last()
    }
}

/// The reply to `?op`: the roster, comma-joined.
pub open spec fn spec_admin_reply(roster: Seq<Seq<char>>) -> Seq<char> {
    "Current admins: "@ + spec_join(roster, ", "@)
}

/// The acknowledgement after adding a user to the roster.
pub open spec fn spec_added_reply(user: Seq<char>) -> Seq<char> {
    "Added "@ + user
}

/// The confirmation sent before a room is created.
pub open spec fn spec_create_reply(alias: Seq<char>, name: Seq<char>) -> Seq<char> {
    "Will create a room named #"@ + alias + ":rustch.at with the name: "@ + name
        + ". You will be invited."@
}

/// Join the roster members with `", "`, as the `?op` reply shows them.
fn join_admins(roster: &AdminRoster) -> (r: String)
    ensures
        r@ == spec_join(roster@, ", "@),
{
    let members = roster.members();
    let mut acc = String::new();
    let n = members.len();
    let ghost names = roster@;
    let mut i: usize = 0;
    proof {
        assert(names.subrange(0, 0) =~= Seq::<Seq<char>>::empty());
    }
    while i < n
        invariant
            n == names.len(),
            members@.map_values(|s: String| s@) == names,
            i <= n,
            acc@ == spec_join(names.subrange(0, i as int), ", "@),
        decreases n - i,
    {
        proof {
            assert(members@.map_values(|s: String| s@)[i as int] == names[i as int]);
        }
        if i > 0 {
            acc.append(", ");
        }
        acc.append(members[i].as_str());
        proof {
            let pre = names.subrange(0, i as int);
            let now = names.subrange(0, i + 1 as int);
            assert(now.drop_last() =~= pre);
            assert(now.last() == names[i as int]);
            if i == 0 {
                assert(acc@ =~= spec_join(now, ", "@));
            } else {
                assert(acc@ =~= spec_join(now, ", "@));
            }
        }
        i = i + 1;
    }
    proof {
        assert(names.subrange(0, n as int) =~= names);
    }
    acc
}

/// What routing a message does: the roster afterwards, and the effects to
/// perform, in order.
pub open spec fn spec_route(
    roster: Seq<Seq<char>>,
    bot_id: Seq<char>,
    room_id: Seq<char>,
    sender: Seq<char>,
    text: Seq<char>,
) -> (Seq<Seq<char>>, Seq<EffectV>) {
    if !roster.contains(sender) {
        (roster, Seq::<EffectV>::empty())
    } else {
        match spec_parse(text) {
            None => (roster, Seq::<EffectV>::empty()),
            Some(CommandV::Ping) => (
                roster,
                seq![EffectV::SendMessage { room_id: room_id, body: "PONG!"@ }],
            ),
            Some(CommandV::Invite { user_id }) => if user_id.len() == 0 {
                (roster, Seq::<EffectV>::empty())
            } else {
                (roster, seq![EffectV::InviteUser { room_id: room_id, user_id: user_id }])
            },
            Some(CommandV::OpAsk) => (
                roster,
                seq![EffectV::SendMessage { room_id: room_id, body: spec_admin_reply(roster) }],
            ),
            Some(CommandV::Op { user: None }) => (
                roster,
                seq![
                    EffectV::SetPowerLevels { room_id: room_id, user_ids: roster.push(bot_id) },
                ],
            ),
            Some(CommandV::Op { user: Some(user) }) => (
                roster.push(user),
                seq![
                    EffectV::SendMessage { room_id: room_id, body: spec_added_reply(user) },
                    EffectV::SetPowerLevels {
                        room_id: room_id,
                        user_ids: roster.push(user).push(bot_id),
                    },
                ],
            ),
            Some(CommandV::Create { alias, name, topic }) => (
                roster,
                seq![
                    EffectV::SendMessage { room_id: room_id, body: spec_create_reply(alias, name) },
                    EffectV::CreateRoom {
                        alias: alias,
                        name: name,
                        topic: topic,
                        invite: roster,
                        settings: spec_default_room_settings(),
                    },
                ],
            ),
        }
    }
}

/// Act on one room message: admins' commands become effects, everything
/// else is silently ignored, as `spec_route` describes.
pub fn handle(
    roster: &mut AdminRoster,
    bot_id: &String,
    room_id: &String,
    sender: &String,
    text: &String,
) -> (effects: Vec<Effect>)
    ensures
        (final(roster)@, effects@.map_values(|e: Effect| e@)) == spec_route(
            old(roster)@,
            bot_id@,
            room_id@,
            sender@,
            text@,
        ),
{
    let ghost expected = spec_route(old(roster)@, bot_id@, room_id@, sender@, text@);
    let mut effects: Vec<Effect> = Vec::new();
    if !roster.is_admin(sender) {
        proof {
            assert(effects@.map_values(|e: Effect| e@) =~= expected.1);
        }
        return effects;
    }
    match parse_command(text) {
        None => {
            proof {
                assert(effects@.map_values(|e: Effect| e@) =~= expected.1);
            }
        }
        Some(Command::Ping) => {
            effects.push(
                Effect::SendMessage { room_id: room_id.clone(), body: String::from_str("PONG!") },
            );
            proof {
                assert(effects@.map_values(|e: Effect| e@) =~= expected.1);
            }
        }
        Some(Command::Invite { user_id }) => {
            if user_id.as_str().unicode_len() > 0 {
                effects.push(
                    Effect::InviteUser { room_id: room_id.clone(), user_id: user_id },
                );
                proof {
                    assert(effects@.map_values(|e: Effect| e@) =~= expected.1);
                }
            } else {
                proof {
                    assert(effects@.map_values(|e: Effect| e@) =~= expected.1);
                }
            }
        }
        Some(Command::OpAsk) => {
            let listing = String::from_str("Current admins: ").concat(
                join_admins(roster).as_str(),
            );
            proof {
                assert(listing@ =~= spec_admin_reply(old(roster)@));
            }
            effects.push(Effect::SendMessage { room_id: room_id.clone(), body: listing });
            proof {
                assert(effects@.map_values(|e: Effect| e@) =~= expected.1);
            }
        }
        Some(Command::Op { user: None }) => {
            effects.push(
                Effect::SetPowerLevels {
                    room_id: room_id.clone(),
                    user_ids: roster.members_and(bot_id),
                },
            );
            proof {
                assert(effects@.map_values(|e: Effect| e@) =~= expected.1);
            }
        }
        Some(Command::Op { user: Some(user) }) => {
            let ack = String::from_str("Added ").concat(user.as_str());
            proof {
                assert(ack@ =~= spec_added_reply(user@));
            }
            roster.add(&user);
            effects.push(Effect::SendMessage { room_id: room_id.clone(), body: ack });
            effects.push(
                Effect::SetPowerLevels {
                    room_id: room_id.clone(),
                    user_ids: roster.members_and(bot_id),
                },
            );
            proof {
                assert(effects@.map_values(|e: Effect| e@) =~= expected.1);
            }
        }
        Some(Command::Create { alias, name, topic }) => {
            let confirmation = String::from_str("Will create a room named #").concat(
                alias.as_str(),
            ).concat(":rustch.at with the name: ").concat(name.as_str()).concat(
                ". You will be invited.",
            );
            proof {
                assert(confirmation@ =~= spec_create_reply(alias@, name@));
            }
            effects.push(Effect::SendMessage { room_id: room_id.clone(), body: confirmation });
            effects.push(
                Effect::CreateRoom {
                    alias: alias,
                    name: name,
                    topic: topic,
                    invite: roster.members(),
                    settings: default_room_settings(),
                },
            );
            proof {
                assert(effects@.map_values(|e: Effect| e@) =~= expected.1);
            }
        }
    }
    effects
}

/// A sender outside the admin roster never triggers anything: whatever the
/// text, routing leaves the roster alone and produces no effect.
pub proof fn lemma_non_admin_ignored(
    roster: Seq<Seq<char>>,
    bot_id: Seq<char>,
    room_id: Seq<char>,
    sender: Seq<char>,
    text: Seq<char>,
)
    requires
        !roster.contains(sender),
    ensures
        spec_route(roster, bot_id, room_id, sender, text) == (roster, Seq::<EffectV>::empty()),
{
}

/// An admin's bare `!op` changes no roster entry, yet pushes power levels
/// for the existing roster plus the bot identity.
pub proof fn lemma_bare_op_pushes_roster(
    roster: Seq<Seq<char>>,
    bot_id: Seq<char>,
    room_id: Seq<char>,
    sender: Seq<char>,
    text: Seq<char>,
)
    requires
        roster.contains(sender),
        spec_parse(text) == Some(CommandV::Op { user: None::<Seq<char>> }),
    ensures
        spec_route(roster, bot_id, room_id, sender, text) == (
            roster,
            seq![EffectV::SetPowerLevels { room_id: room_id, user_ids: roster.push(bot_id) }],
        ),
{
}

/// An admin's create command confirms first and creates second, and the
/// room is created inviting exactly the current roster, with the fixed
/// default settings.
pub proof fn lemma_create_confirms_then_creates(
    roster: Seq<Seq<char>>,
    bot_id: Seq<char>,
    room_id: Seq<char>,
    sender: Seq<char>,
    text: Seq<char>,
    alias: Seq<char>,
    name: Seq<char>,
    topic: Option<Seq<char>>,
)
    requires
        roster.contains(sender),
        spec_parse(text) == Some(CommandV::Create { alias, name, topic }),
    ensures
        spec_route(roster, bot_id, room_id, sender, text) == (
            roster,
            seq![
                EffectV::SendMessage { room_id: room_id, body: spec_create_reply(alias, name) },
                EffectV::CreateRoom {
                    alias: alias,
                    name: name,
                    topic: topic,
                    invite: roster,
                    settings: spec_default_room_settings(),
                },
            ],
        ),
{
}

} // verus!
