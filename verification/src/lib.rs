//! Core logic of a room-synchronising chat bot.
//!
//! The crate models the bot's state machine on plain values: the store of
//! per-room metadata, the bounded retry bookkeeping for room invitations,
//! the admin command router, the rate-limited background dispatcher, and
//! the sync driver that ties them together.  All wire traffic (the chat
//! protocol, the backend, the control API) stays outside: callers hand the
//! library the decoded events and perform the effects it returns.

pub mod backend;
pub mod commands;
pub mod control;
pub mod dispatcher;
pub mod effects;
pub mod ids;
pub mod invites;
pub mod power_levels;
pub mod rooms;
pub mod roster;
pub mod sync;
