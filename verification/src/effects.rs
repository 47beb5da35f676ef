//! Side effects the core decides on and hands back to its caller.
//!
//! The library never performs wire traffic itself: every protocol call or
//! backend notification it wants done is returned as an `Effect`, in the
//! order the effects must be performed.

use vstd::prelude::*;
use crate::rooms::RoomInfo;
use crate::rooms::RoomInfoV;
use crate::rooms::opt_view;

verus! {

/// The fixed settings every room created by the bot gets.
#[derive(Clone, Copy, Debug, PartialEq, Eq, Structural)]
pub struct RoomSettings {
    /// Guests may join.
    pub guest_access_allowed: bool,
    /// Joining needs an invitation.
    pub invite_only: bool,
    /// History is visible to members since they were invited.
    pub shared_history: bool,
}

/// The room settings the bot always creates rooms with: guest access
/// allowed, invite-only join rule, shared history visibility.
pub open spec fn spec_default_room_settings() -> RoomSettings {
    RoomSettings { guest_access_allowed: true, invite_only: true, shared_history: true }
}

/// Exec counterpart of `spec_default_room_settings`.
pub fn default_room_settings() -> (r: RoomSettings)
    ensures
        r == spec_default_room_settings(),
{
    RoomSettings { guest_access_allowed: true, invite_only: true, shared_history: true }
}

/// A deferred externally visible action.
#[derive(Debug, PartialEq, Eq)]
pub enum Effect {
    /// Send a plaintext message into a room.
    SendMessage { room_id: String, body: String },
    /// Invite a user into a room.
    InviteUser { room_id: String, user_id: String },
    /// Push power levels granting `user_ids` admin rights in the room.
    SetPowerLevels { room_id: String, user_ids: Vec<String> },
    /// Create a room with the fixed default settings, inviting `invite`.
    CreateRoom {
        alias: String,
        name: String,
        topic: Option<String>,
        invite: Vec<String>,
        settings: RoomSettings,
    },
    /// Relay a received chat message to the backend.
    RelayMessage {
        room_id: String,
        room_name: Option<String>,
        room_alias: Option<String>,
        sender: String,
        text: Option<String>,
    },
    /// Publish the aggregated room list to the backend.
    PublishRooms { rooms: Vec<RoomInfo> },
}

/// Mathematical image of an `Effect`.
pub ghost enum EffectV {
    SendMessage { room_id: Seq<char>, body: Seq<char> },
    InviteUser { room_id: Seq<char>, user_id: Seq<char> },
    SetPowerLevels { room_id: Seq<char>, user_ids: Seq<Seq<char>> },
    CreateRoom {
        alias: Seq<char>,
        name: Seq<char>,
        topic: Option<Seq<char>>,
        invite: Seq<Seq<char>>,
        settings: RoomSettings,
    },
    RelayMessage {
        room_id: Seq<char>,
        room_name: Option<Seq<char>>,
        room_alias: Option<Seq<char>>,
        sender: Seq<char>,
        text: Option<Seq<char>>,
    },
    PublishRooms { rooms: Seq<RoomInfoV> },
}

impl View for Effect {
    type V = EffectV;

    open spec fn view(&self) -> EffectV {
        match self {
            Effect::SendMessage { room_id, body } => EffectV::SendMessage {
                room_id: room_id@,
                body: body@,
            },
            Effect::InviteUser { room_id, user_id } => EffectV::InviteUser {
                room_id: room_id@,
                user_id: user_id@,
            },
            Effect::SetPowerLevels { room_id, user_ids } => EffectV::SetPowerLevels {
                room_id: room_id@,
                user_ids: user_ids@.map_values(|s: String| s@),
            },
            Effect::CreateRoom { alias, name, topic, invite, settings } => EffectV::CreateRoom {
                alias: alias@,
                name: name@,
                topic: opt_view(*topic),
                invite: invite@.map_values(|s: String| s@),
                settings: *settings,
            },
            Effect::RelayMessage { room_id, room_name, room_alias, sender, text } => {
                EffectV::RelayMessage {
                    room_id: room_id@,
                    room_name: opt_view(*room_name),
                    room_alias: opt_view(*room_alias),
                    sender: sender@,
                    text: opt_view(*text),
                }
            },
            Effect::PublishRooms { rooms } => EffectV::PublishRooms {
                rooms: rooms@.map_values(|r: RoomInfo| r@),
            },
        }
    }
}

} // verus!
