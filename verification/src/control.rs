//! Decisions of the control API: a shared secret guards two operations.
//!
//! The HTTP surface itself lives outside; it hands the decoded request in
//! and performs the effect this module decides on.  An unauthorized
//! request touches nothing and is answered with a client error.

use vstd::prelude::*;
use crate::effects::Effect;
use crate::effects::EffectV;
use crate::effects::default_room_settings;
use crate::effects::spec_default_room_settings;
use crate::rooms::opt_view;
use crate::roster::AdminRoster;

verus! {

/// A decoded control request.
#[derive(Debug, PartialEq, Eq)]
pub enum ControlRequest {
    /// Invite a user into a room; the room may be named by ID or alias.
    Invite { api_key: String, user_id: String, room_id: String },
    /// Create a room, inviting the admin roster.
    CreateRoom { api_key: String, alias: String, name: String, topic: Option<String> },
}

/// Mathematical image of a `ControlRequest`.
pub ghost enum ControlRequestV {
    Invite { api_key: Seq<char>, user_id: Seq<char>, room_id: Seq<char> },
    CreateRoom {
        api_key: Seq<char>,
        alias: Seq<char>,
        name: Seq<char>,
        topic: Option<Seq<char>>,
    },
}

impl View for ControlRequest {
    type V = ControlRequestV;

    open spec fn view(&self) -> ControlRequestV {
        match self {
            ControlRequest::Invite { api_key, user_id, room_id } => ControlRequestV::Invite {
                api_key: api_key@,
                user_id: user_id@,
                room_id: room_id@,
            },
            ControlRequest::CreateRoom { api_key, alias, name, topic } => {
                ControlRequestV::CreateRoom {
                    api_key: api_key@,
                    alias: alias@,
                    name: name@,
                    topic: opt_view(*topic),
                }
            },
        }
    }
}

/// Why a control request was turned away.
#[derive(Clone, Copy, Debug, PartialEq, Eq, Structural)]
pub enum ControlError {
    /// The request's key does not match the shared secret.
    Forbidden,
}

/// The key a request carries.
pub open spec fn spec_request_key(req: ControlRequestV) -> Seq<char> {
    match req {
        ControlRequestV::Invite { api_key, .. } => api_key,
        ControlRequestV::CreateRoom { api_key, .. } => api_key,
    }
}

/// What an authorized request asks for.
pub open spec fn spec_control_effect(req: ControlRequestV, roster: Seq<Seq<char>>) -> EffectV {
    match req {
        ControlRequestV::Invite { user_id, room_id, .. } => EffectV::InviteUser {
            room_id: room_id,
            user_id: user_id,
        },
        ControlRequestV::CreateRoom { alias, name, topic, .. } => EffectV::CreateRoom {
            alias: alias,
            name: name,
            topic: topic,
            invite: roster,
            settings: spec_default_room_settings(),
        },
    }
}

/// Decide one control request: the effect to perform when the key matches
/// the shared secret, `Forbidden` — and no effect at all — when not.
pub fn control_effect(req: &ControlRequest, secret: &String, roster: &AdminRoster) -> (r: Result<
    Effect,
    ControlError,
>)
    ensures
        (r is Ok) == (spec_request_key(req@) == secret@),
        r is Ok ==> r->Ok_0@ == spec_control_effect(req@, roster@),
        r is Err ==> r->Err_0 == ControlError::Forbidden,
{
    match req {
        ControlRequest::Invite { api_key, user_id, room_id } => {
            if *api_key == *secret {
                Ok(
                    Effect::InviteUser { room_id: room_id.clone(), user_id: user_id.clone() },
                )
            } else {
                Err(ControlError::Forbidden)
            }
        },
        ControlRequest::CreateRoom { api_key, alias, name, topic } => {
            if *api_key == *secret {
                let invite: Vec<String> = roster.members();
                Ok(
                    Effect::CreateRoom {
                        alias: alias.clone(),
                        name: name.clone(),
                        topic: match topic {
                            Some(t) => Some(t.clone()),
                            None => None,
                        },
                        invite,
                        settings: default_room_settings(),
                    },
                )
            } else {
                Err(ControlError::Forbidden)
            }
        },
    }
}

} // verus!
